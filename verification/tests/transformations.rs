use strapdown::constants::{A, B};
use strapdown::fixed::ONE;
use strapdown::linalg::{Matrix3, Vector3};
use strapdown::transformations::{
    auxiliary_angle, axis_distance, ecef_to_lla, ecef_to_ned_transformation, height, latitude,
    lla_to_ecef, ned_to_ecef_transformation, prime_vertical_radius,
};
use strapdown::types::{Angle, Geodetic, NavError};

fn to_fixed(x: f64) -> i64 {
    (x * ONE as f64).round() as i64
}

fn to_float(x: i64) -> f64 {
    x as f64 / ONE as f64
}

fn angle_of_degrees(deg: f64) -> Angle {
    let rad = deg.to_radians();
    Angle { sin: to_fixed(rad.sin()), cos: to_fixed(rad.cos()) }
}

fn degrees_of_angle(a: &Angle) -> f64 {
    to_float(a.sin).atan2(to_float(a.cos)).to_degrees()
}

fn geodetic(lat: f64, lon: f64, alt: f64) -> Geodetic {
    Geodetic { lat: angle_of_degrees(lat), lon: angle_of_degrees(lon), alt: to_fixed(alt) }
}

#[test]
fn lla_to_ecef_reference_point() {
    let ecef = lla_to_ecef(&geodetic(45.0, -93.0, 100.0)).unwrap();
    assert!((to_float(ecef.x) - -236436.1392718586).abs() < 1e-3);
    assert!((to_float(ecef.y) - -4511470.291365078).abs() < 1e-3);
    assert!((to_float(ecef.z) - 4487419.119432919).abs() < 1e-3);
}

#[test]
fn reference_point_round_trip() {
    let ecef = lla_to_ecef(&geodetic(45.0, -93.0, 100.0)).unwrap();
    let lla = ecef_to_lla(&ecef).unwrap();
    assert!((degrees_of_angle(&lla.lat) - 45.0).abs() < 1e-6);
    assert!((degrees_of_angle(&lla.lon) - -93.0).abs() < 1e-6);
    assert!((to_float(lla.alt) - 100.0).abs() < 1e-3);
}

#[test]
fn round_trip_over_the_globe() {
    let mut worst_angle: f64 = 0.0;
    let mut worst_alt: f64 = 0.0;
    let lats =
        [-90.0, -89.999, -89.0, -60.0, -45.0, -10.0, 0.0, 0.001, 30.0, 45.0, 75.0, 89.9, 90.0];
    for lat in lats {
        for lon in [-179.9, -93.0, -1.0, 0.0, 45.0, 90.0, 135.0, 180.0] {
            for alt in [-1000.0, 0.0, 100.0, 10000.0, 50000.0] {
                let ecef = lla_to_ecef(&geodetic(lat, lon, alt)).unwrap();
                let lla = ecef_to_lla(&ecef).unwrap();
                let dlat = (degrees_of_angle(&lla.lat) - lat).abs();
                let mut dlon = (degrees_of_angle(&lla.lon) - lon).abs();
                if dlon > 180.0 {
                    dlon = 360.0 - dlon;
                }
                let dalt = (to_float(lla.alt) - alt).abs();
                if lat.abs() < 89.99 {
                    worst_angle = worst_angle.max(dlat).max(dlon);
                    assert!(dlon < 1e-6, "lon {lat} {lon} {alt}: {dlon}");
                }
                worst_angle = worst_angle.max(dlat);
                worst_alt = worst_alt.max(dalt);
                assert!(dlat < 1e-6, "lat {lat} {lon} {alt}: {dlat}");
                assert!(dalt < 1e-3, "alt {lat} {lon} {alt}: {dalt}");
            }
        }
    }
    assert!(worst_angle < 1e-6 && worst_alt < 1e-3);
}

#[test]
fn equator_at_zero_altitude_is_exact() {
    let east = Angle { sin: 0, cos: ONE };
    let on_equator = Geodetic { lat: east, lon: east, alt: 0 };
    assert_eq!(lla_to_ecef(&on_equator), Ok(Vector3::new(A, 0, 0)));
    assert_eq!(ecef_to_lla(&Vector3::new(A, 0, 0)), Ok(on_equator));
    let quarter = Angle { sin: ONE, cos: 0 };
    assert_eq!(
        ecef_to_lla(&Vector3::new(0, A, 0)),
        Ok(Geodetic { lat: east, lon: quarter, alt: 0 })
    );
    assert_eq!(
        ecef_to_lla(&Vector3::new(-A, 0, 0)),
        Ok(Geodetic { lat: east, lon: Angle { sin: 0, cos: -ONE }, alt: 0 })
    );
    assert_eq!(
        lla_to_ecef(&Geodetic { lat: east, lon: quarter, alt: 1_000 * ONE }),
        Ok(Vector3::new(0, A + 1_000 * ONE, 0))
    );
}

#[test]
fn poles_take_the_polar_form() {
    let up = Angle { sin: ONE, cos: 0 };
    let down = Angle { sin: -ONE, cos: 0 };
    let east = Angle { sin: 0, cos: ONE };
    let north = lla_to_ecef(&Geodetic { lat: up, lon: east, alt: 0 }).unwrap();
    assert_eq!(north, Vector3::new(0, 0, 6_356_752_314_144_936_211));
    assert_eq!(ecef_to_lla(&north), Ok(Geodetic { lat: up, lon: east, alt: 0 }));
    let south = lla_to_ecef(&Geodetic { lat: down, lon: east, alt: 0 }).unwrap();
    assert_eq!(south, Vector3::new(0, 0, -6_356_752_314_144_936_211));
    assert_eq!(ecef_to_lla(&south), Ok(Geodetic { lat: down, lon: east, alt: 0 }));
    assert_eq!(
        ecef_to_lla(&Vector3::new(0, 0, B)),
        Ok(Geodetic { lat: up, lon: east, alt: -44_936_211 })
    );
    assert_eq!(
        ecef_to_lla(&Vector3::new(0, 0, B + 5_000 * ONE)),
        Ok(Geodetic { lat: up, lon: east, alt: 5_000 * ONE - 44_936_211 })
    );
}

#[test]
fn ecef_to_lla_at_the_centre_is_the_north_pole() {
    let north = Angle { sin: ONE, cos: 0 };
    let east = Angle { sin: 0, cos: ONE };
    let centre = Geodetic { lat: north, lon: east, alt: -6_356_752_314_144_936_211 };
    assert_eq!(ecef_to_lla(&Vector3::new(0, 0, 0)), Ok(centre));
    assert_eq!(lla_to_ecef(&centre), Ok(Vector3::new(0, 0, 0)));
}

#[test]
fn latitude_lies_between_the_poles_inside_the_earth() {
    let south = Angle { sin: -ONE, cos: 0 };
    let north = Angle { sin: ONE, cos: 0 };
    // Within E2_A cos^3 of the axis the closed form's tangent has no
    // positive denominator: the latitude is the pole on the side of z.
    let below = ecef_to_lla(&Vector3::new(10_000 * ONE, 0, -1_000 * ONE)).unwrap();
    assert_eq!(below.lat, south);
    assert_eq!(below.lon, Angle { sin: 0, cos: ONE });
    assert_eq!(below.alt, 1_000 * ONE - 6_356_752_314_144_936_211);
    let above = ecef_to_lla(&Vector3::new(0, -20_000 * ONE, 5 * ONE)).unwrap();
    assert_eq!(above.lat, north);
    assert_eq!(above.lon, Angle { sin: -ONE, cos: 0 });
    assert_eq!(above.alt, 5 * ONE - 6_356_752_314_144_936_211);
    let level = ecef_to_lla(&Vector3::new(30_000 * ONE, 0, 0)).unwrap();
    assert_eq!(level.lat, north);
    // Everywhere the cosine of the latitude is not negative.
    for x in [0, 1, 1_000 * ONE, 42_000 * ONE, 43_000 * ONE, 100_000 * ONE, 6_378_137 * ONE] {
        for z in [-6_000_000 * ONE, -50_000 * ONE, -1, 0, 1, 50_000 * ONE, 6_000_000 * ONE] {
            let lla = ecef_to_lla(&Vector3::new(x, 0, z)).unwrap();
            assert!(lla.lat.cos >= 0, "{x} {z}");
            assert!(lla.lat.is_bounded());
            assert!(z >= 0 || lla.lat.sin <= 0, "{x} {z}");
            assert!(z <= 0 || lla.lat.sin >= 0, "{x} {z}");
        }
    }
}

#[test]
fn conversions_out_of_range() {
    assert_eq!(
        ecef_to_lla(&Vector3::new(i64::MAX, i64::MAX, 0)),
        Err(NavError::OutOfRange)
    );
    let east = Angle { sin: 0, cos: ONE };
    assert_eq!(
        lla_to_ecef(&Geodetic { lat: east, lon: east, alt: i64::MAX }),
        Err(NavError::OutOfRange)
    );
    let broken = Angle { sin: 13 * ONE, cos: 0 };
    assert_eq!(
        lla_to_ecef(&Geodetic { lat: broken, lon: east, alt: 0 }),
        Err(NavError::OutOfRange)
    );
    let unstorable = Geodetic { lat: east, lon: Angle { sin: i64::MIN, cos: 0 }, alt: 0 };
    assert_eq!(ecef_to_ned_transformation(&unstorable), Err(NavError::OutOfRange));
}

#[test]
fn direction_of_a_plane_vector() {
    assert_eq!(Angle::from_components(0, 0), Angle { sin: 0, cos: ONE });
    assert_eq!(Angle::from_components(3, 4), Angle { sin: 600_000_000_000, cos: 800_000_000_000 });
    assert_eq!(Angle::from_components(-5 * ONE, 0), Angle { sin: -ONE, cos: 0 });
    assert_eq!(
        Angle::from_components(ONE, -ONE),
        Angle { sin: 707_106_781_187, cos: -707_106_781_187 }
    );
    assert_eq!(
        Angle::from_components(i64::MIN, i64::MIN),
        Angle { sin: -707_106_781_187, cos: -707_106_781_187 }
    );
}

#[test]
fn ecef_to_ned_at_the_reference_point() {
    let lla = Geodetic {
        lat: Angle { sin: 600_000_000_000, cos: 800_000_000_000 },
        lon: Angle { sin: -800_000_000_000, cos: 600_000_000_000 },
        alt: 12_345,
    };
    let m = ecef_to_ned_transformation(&lla).unwrap();
    assert_eq!(
        m,
        Matrix3::new(
            -360_000_000_000,
            480_000_000_000,
            800_000_000_000,
            800_000_000_000,
            600_000_000_000,
            0,
            -480_000_000_000,
            640_000_000_000,
            -600_000_000_000
        )
    );
    assert_eq!(m.times(&m.transpose()), Ok(Matrix3::identity()));
}

#[test]
fn ned_is_transpose_of_ecef_to_ned() {
    let lla = geodetic(45.0, -93.0, 100.0);
    let m = ecef_to_ned_transformation(&lla).unwrap();
    let t = ned_to_ecef_transformation(&lla).unwrap();
    assert_eq!(t, m.transpose());
    assert_eq!(t.transpose(), m);
}

#[test]
fn reference_point_exactly() {
    let lat = Angle { sin: 707_106_781_187, cos: 707_106_781_187 };
    let lon = Angle { sin: -998_629_534_755, cos: -52_335_956_243 };
    let ecef = lla_to_ecef(&Geodetic { lat, lon, alt: 100 * ONE }).unwrap();
    assert_eq!(
        ecef,
        Vector3::new(
            -236_436_139_272_366_764,
            -4_511_470_291_371_857_716,
            4_487_419_119_437_299_179
        )
    );
    let back = ecef_to_lla(&ecef).unwrap();
    assert_eq!(back.lat, Angle { sin: 707_106_781_189, cos: 707_106_781_185 });
    assert_eq!(back.lon, lon);
    assert_eq!(back.alt, 99_999_982_050_324);
}

#[test]
fn closed_form_latitude_step_by_step() {
    let ecef = Vector3::new(
        -236_436_139_272_366_764,
        -4_511_470_291_371_857_716,
        4_487_419_119_437_299_179,
    );
    assert_eq!(prime_vertical_radius(707_106_781_187), Ok(6_388_838_290_176_433_863));
    assert_eq!(prime_vertical_radius(0), Ok(A));
    assert_eq!(prime_vertical_radius(ONE), Ok(6_399_593_625_869_273_612));
    let p = axis_distance(&ecef).unwrap();
    assert_eq!(p, 4_517_661_589_570_969_266);
    let theta = auxiliary_angle(p, ecef.z).unwrap();
    assert_eq!(theta, Angle { sin: 705_918_435_151, cos: 708_293_133_465 });
    let lat = latitude(p, ecef.z, &theta).unwrap();
    assert_eq!(lat, Angle { sin: 707_106_781_189, cos: 707_106_781_185 });
    assert_eq!(height(p, ecef.z, &lat), Ok(99_999_982_050_324));
    let flatter = Angle { sin: 707_106_781_185, cos: 707_106_781_189 };
    assert!((height(p, ecef.z, &flatter).unwrap() - 100 * ONE).abs() < ONE / 10);
}

#[test]
fn high_latitude_exactly() {
    let lat = Angle { sin: 939_692_620_786, cos: 342_020_143_326 };
    let lon = Angle { sin: -998_629_534_755, cos: -52_335_956_243 };
    let ecef = lla_to_ecef(&Geodetic { lat, lon, alt: 2_500 * ONE }).unwrap();
    assert_eq!(
        ecef,
        Vector3::new(
            -114_552_035_595_543_973,
            -2_185_783_049_054_668_960,
            5_973_389_238_566_305_639
        )
    );
    assert_eq!(
        ecef_to_lla(&ecef),
        Ok(Geodetic {
            lat: Angle { sin: 939_692_620_787, cos: 342_020_143_323 },
            lon,
            alt: 2_499_999_993_235_290
        })
    );
}

#[test]
fn rounded_sines_and_cosines_are_unit() {
    let mut deg = -360.0;
    while deg <= 360.0 {
        let a = angle_of_degrees(deg);
        assert!(a.is_bounded() && a.is_unit(), "{deg}");
        deg += 0.37;
    }
    assert!(Angle { sin: 0, cos: ONE }.is_unit());
    assert!(Angle { sin: 600_000_000_000, cos: -800_000_000_000 }.is_unit());
    assert!(Angle { sin: 2, cos: ONE }.is_unit());
    assert!(!Angle { sin: 3, cos: ONE + 2 }.is_unit());
    assert!(!Angle { sin: 0, cos: ONE - 3 }.is_unit());
    assert!(!Angle { sin: ONE, cos: ONE }.is_unit());
    assert!(Angle { sin: ONE, cos: -ONE }.is_bounded());
    assert!(!Angle { sin: ONE + 1, cos: 0 }.is_bounded());
    assert!(!Angle { sin: 0, cos: -ONE - 1 }.is_bounded());
    assert!(!Angle { sin: i64::MIN, cos: i64::MIN }.is_unit());
}

#[test]
fn longitude_comes_back_to_the_last_places() {
    for lat in [-89.9, -45.0, 0.0, 10.0, 60.0, 89.9] {
        let mut lon = -180.0;
        while lon <= 180.0 {
            for alt in [-1000.0, 0.0, 50000.0] {
                let lla = geodetic(lat, lon, alt);
                let back = ecef_to_lla(&lla_to_ecef(&lla).unwrap()).unwrap();
                assert!((back.lon.sin - lla.lon.sin).abs() <= 3, "{lat} {lon} {alt}");
                assert!((back.lon.cos - lla.lon.cos).abs() <= 3, "{lat} {lon} {alt}");
            }
            lon += 7.3;
        }
    }
}

#[test]
fn rotations_are_orthonormal_to_the_last_places() {
    let mut worst = 0;
    let mut lat = -90.0;
    while lat <= 90.0 {
        let mut lon = -180.0;
        while lon <= 180.0 {
            let lla = geodetic(lat, lon, 0.0);
            assert!(lla.lat.is_valid() && lla.lon.is_valid());
            for m in [
                ecef_to_ned_transformation(&lla).unwrap(),
                ned_to_ecef_transformation(&lla).unwrap(),
            ] {
                let d = m.times(&m.transpose()).unwrap().minus(&Matrix3::identity()).unwrap();
                for row in [d.r0, d.r1, d.r2] {
                    for entry in [row.x, row.y, row.z] {
                        worst = worst.max(entry.abs());
                    }
                }
            }
            lon += 11.3;
        }
        lat += 7.7;
    }
    assert!(worst <= 13, "{worst}");
}
