use strapdown::constants::{GEQ, OMEGA_EARTH};
use strapdown::fixed::ONE;
use strapdown::linalg::{Matrix3, Vector3};
use strapdown::strapdown::{
    acceleration, attitude_increment, body_rate, normal_gravity, orthonormality_error,
    renormalized, rotation_angle, settled, trapezoid, Strapdown, DRIFT_LIMIT, RATE_EPSILON,
};
use strapdown::types::{interval, Angle, ImuMeasurement, NavError, NavState};

fn to_fixed(x: f64) -> i64 {
    (x * ONE as f64).round() as i64
}

fn to_float(x: i64) -> f64 {
    x as f64 / ONE as f64
}

fn sin_cos(angle: i64) -> Angle {
    let a = to_float(angle);
    Angle { sin: to_fixed(a.sin()), cos: to_fixed(a.cos()) }
}

fn at_rest(position: Vector3) -> Strapdown {
    Strapdown::new(
        0,
        NavState { position, velocity: Vector3::zeros(), body_to_ecef: Matrix3::identity() },
    )
}

fn step(s: &mut Strapdown, imu: &ImuMeasurement, gravity: &Vector3) -> Result<(), NavError> {
    let angle = s.rotation_angle(imu)?;
    s.integrate(imu, gravity, &sin_cos(angle))
}

#[test]
fn new_starts_from_the_initial_state() {
    let state = NavState {
        position: Vector3::new(1, 2, 3),
        velocity: Vector3::new(4, 5, 6),
        body_to_ecef: Matrix3::identity(),
    };
    let s = Strapdown::new(42, state);
    assert_eq!(s.t, 42);
    assert_eq!(s.nav_state, state);
    assert_eq!(s.nav_state_prev, state);
    assert_eq!(s.v_dot_prev, Vector3::zeros());
}

#[test]
fn interval_is_in_seconds() {
    assert_eq!(interval(0, 10_000_000), Ok(ONE / 100));
    assert_eq!(interval(1_700_000_000_000_000_000, 1_700_000_000_100_000_000), Ok(ONE / 10));
    assert_eq!(interval(5, 5), Err(NavError::InvalidTimestep));
    assert_eq!(interval(5, 4), Err(NavError::InvalidTimestep));
    assert_eq!(interval(i64::MIN, i64::MAX), Err(NavError::OutOfRange));
    assert_eq!(interval(0, i64::MAX / 1_000 + 1), Err(NavError::OutOfRange));
    assert_eq!(interval(0, i64::MAX / 1_000), Ok(i64::MAX / 1_000 * 1_000));
}

#[test]
fn one_step_with_rotation_and_thrust() {
    let mut s = at_rest(Vector3::new(6_378_137 * ONE, 0, 0));
    let imu = ImuMeasurement {
        t: 10_000_000,
        d_v: Vector3::new(20_000_000_000, 0, -10_000_000_000),
        d_theta: Vector3::new(0, 0, 1_000_000_000),
    };
    let dt = interval(s.t, imu.t).unwrap();
    let rate = body_rate(&s.nav_state.body_to_ecef, &imu.d_theta, dt).unwrap();
    assert_eq!(rate, Vector3::new(0, 0, 99_927_078_841));
    assert_eq!(rotation_angle(&rate, dt), Ok(999_270_788));
    assert_eq!(s.rotation_angle(&imu), Ok(999_270_788));
    let rotation = Angle { sin: 999_270_622, cos: 999_999_500_729 };
    assert_eq!(sin_cos(999_270_788), rotation);
    let gravity = Vector3::new(-9_800_000_000_000, 0, 0);
    let before = s;
    assert_eq!(s.integrate(&imu, &gravity, &rotation), Ok(()));
    assert_eq!(s.t, 10_000_000);
    assert_eq!(s.nav_state_prev, before.nav_state);
    assert_eq!(
        s.nav_state.body_to_ecef,
        Matrix3::new(
            999_999_500_729,
            -999_270_622,
            0,
            999_270_622,
            999_999_500_729,
            0,
            0,
            0,
            ONE
        )
    );
    assert_eq!(s.v_dot_prev, Vector3::new(-7_800_000_998_542, 1_998_541_244, -ONE));
    assert_eq!(s.nav_state.velocity, Vector3::new(-39_000_004_993, 9_992_706, -5_000_000_000));
    assert_eq!(
        s.nav_state.position,
        Vector3::new(6_378_136_999_804_999_975, 49_964, -25_000_000)
    );
}

#[test]
fn out_of_order_sample_leaves_the_state_untouched() {
    let mut s = at_rest(Vector3::new(6_378_137 * ONE, 0, 0));
    s.t = 1_000;
    let before = s;
    let rotation = Angle { sin: 0, cos: ONE };
    let mut imu = ImuMeasurement { t: 1_000, d_v: Vector3::zeros(), d_theta: Vector3::zeros() };
    assert_eq!(s.integrate(&imu, &Vector3::zeros(), &rotation), Err(NavError::InvalidTimestep));
    assert_eq!(s, before);
    imu.t = 999;
    assert_eq!(s.integrate(&imu, &Vector3::zeros(), &rotation), Err(NavError::InvalidTimestep));
    assert_eq!(s.rotation_angle(&imu), Err(NavError::InvalidTimestep));
    assert_eq!(s, before);
    imu.t = i64::MIN;
    assert_eq!(s.integrate(&imu, &Vector3::zeros(), &rotation), Err(NavError::InvalidTimestep));
    assert_eq!(s, before);
}

#[test]
fn unstorable_step_leaves_the_state_untouched() {
    let mut s = at_rest(Vector3::new(6_378_137 * ONE, 0, 0));
    let before = s;
    let rotation = Angle { sin: 0, cos: ONE };
    let imu = ImuMeasurement {
        t: 1,
        d_v: Vector3::new(ONE, 0, 0),
        d_theta: Vector3::zeros(),
    };
    assert_eq!(s.integrate(&imu, &Vector3::zeros(), &rotation), Err(NavError::OutOfRange));
    assert_eq!(s, before);
    let late = ImuMeasurement { t: i64::MAX, d_v: Vector3::zeros(), d_theta: Vector3::zeros() };
    assert_eq!(s.integrate(&late, &Vector3::zeros(), &rotation), Err(NavError::OutOfRange));
    assert_eq!(s, before);
}

#[test]
fn stationary_session() {
    let start = Vector3::new(
        -236_436_139_272_000_000,
        -4_511_470_291_372_000_000,
        4_487_419_119_437_000_000,
    );
    let mut s = at_rest(start);
    for i in 1..=10 {
        let imu = ImuMeasurement {
            t: i * 100_000_000,
            d_v: Vector3::zeros(),
            d_theta: Vector3::zeros(),
        };
        assert_eq!(s.rotation_angle(&imu), Ok(7_292_116));
        assert_eq!(step(&mut s, &imu, &Vector3::zeros()), Ok(()));
        assert_eq!(s.nav_state.velocity, Vector3::zeros());
        assert_eq!(s.nav_state.position, start);
        assert_eq!(s.v_dot_prev, Vector3::zeros());
    }
    assert_eq!(s.t, 1_000_000_000);
    let r = s.nav_state.body_to_ecef;
    assert_eq!(
        r,
        Matrix3::new(
            999_999_997_337,
            72_921_160,
            0,
            -72_921_160,
            999_999_997_337,
            0,
            0,
            0,
            ONE
        )
    );
    // With no rate sensed the body keeps its attitude in inertial space: in
    // ECEF it has turned back by the Earth's rotation over the second.
    let turn = to_float(OMEGA_EARTH);
    assert!((to_float(r.r0.x) - turn.cos()).abs() < 1e-10);
    assert!((to_float(r.r0.y) - turn.sin()).abs() < 1e-10);
    assert!((to_float(r.r1.x) + turn.sin()).abs() < 1e-10);
    assert!((to_float(r.r1.y) - turn.cos()).abs() < 1e-10);
    let identity = Matrix3::identity();
    for (row, unit) in [(r.r0, identity.r0), (r.r1, identity.r1), (r.r2, identity.r2)] {
        assert!((to_float(row.x) - to_float(unit.x)).abs() < 1e-4);
        assert!((to_float(row.y) - to_float(unit.y)).abs() < 1e-4);
        assert!((to_float(row.z) - to_float(unit.z)).abs() < 1e-4);
    }
    assert!(s.orthonormality_error().unwrap() < 100);
}

#[test]
fn body_at_rest_on_the_rotating_earth_keeps_its_attitude() {
    let mut s = at_rest(Vector3::new(6_378_137 * ONE, 0, 0));
    for i in 1..=10 {
        let imu = ImuMeasurement {
            t: i * 100_000_000,
            d_v: Vector3::zeros(),
            d_theta: Vector3::new(0, 0, OMEGA_EARTH / 10),
        };
        assert_eq!(step(&mut s, &imu, &Vector3::zeros()), Ok(()));
    }
    let r = s.nav_state.body_to_ecef;
    assert!((r.r0.x - ONE).abs() <= 1);
    assert!((r.r1.y - ONE).abs() <= 1);
    assert!(r.r0.y.abs() <= 100 && r.r1.x.abs() <= 100);
    assert_eq!(r.r2, Vector3::new(0, 0, ONE));
    assert_eq!(s.nav_state.velocity, Vector3::zeros());
}

#[test]
fn small_rate_uses_the_series() {
    let rate = Vector3::new(300_000, -400_000, 0);
    assert!(rate.norm().unwrap() < RATE_EPSILON);
    let any_angle = Angle { sin: 600_000_000_000, cos: -800_000_000_000 };
    let dt = 2 * ONE;
    let increment = attitude_increment(&rate, dt, &any_angle).unwrap();
    assert_eq!(
        increment,
        Matrix3::new(ONE - 1, 0, -800_000, 0, ONE, -600_000, 800_000, 600_000, ONE - 1)
    );
    let at_threshold = Vector3::new(0, 0, RATE_EPSILON);
    let quarter = Angle { sin: ONE, cos: 0 };
    assert_eq!(
        attitude_increment(&at_threshold, dt, &quarter),
        Ok(Matrix3::new(0, -ONE, 0, ONE, 0, 0, 0, 0, ONE))
    );
}

#[test]
fn sine_and_cosine_of_no_angle_are_refused() {
    let rate = Vector3::new(0, 0, ONE);
    let small = Vector3::new(300_000, -400_000, 0);
    for bad in [
        Angle { sin: ONE, cos: ONE },
        Angle { sin: 0, cos: 0 },
        Angle { sin: 123, cos: -456 },
        Angle { sin: ONE + 1, cos: 0 },
        Angle { sin: 0, cos: ONE - 5 },
        Angle { sin: i64::MIN, cos: i64::MAX },
    ] {
        assert!(!bad.is_valid());
        assert_eq!(attitude_increment(&rate, ONE, &bad), Err(NavError::InvalidRotation));
        assert_eq!(attitude_increment(&small, ONE, &bad), Err(NavError::InvalidRotation));
        let mut s = at_rest(Vector3::new(6_378_137 * ONE, 0, 0));
        let before = s;
        let imu = ImuMeasurement {
            t: 10_000_000,
            d_v: Vector3::zeros(),
            d_theta: Vector3::new(0, 0, 1_000_000_000),
        };
        assert_eq!(s.integrate(&imu, &Vector3::zeros(), &bad), Err(NavError::InvalidRotation));
        assert_eq!(s.advance(&imu, &Vector3::zeros(), &bad), Err(NavError::InvalidRotation));
        assert_eq!(s, before);
        // The timestep is looked at first.
        let stale = ImuMeasurement { t: 0, ..imu };
        assert_eq!(s.integrate(&stale, &Vector3::zeros(), &bad), Err(NavError::InvalidTimestep));
        assert_eq!(s.advance(&stale, &Vector3::zeros(), &bad), Err(NavError::InvalidTimestep));
    }
    assert!(Angle { sin: ONE, cos: 0 }.is_valid());
    assert!(Angle { sin: 999_270_622, cos: 999_999_500_729 }.is_valid());
}

#[test]
fn advance_is_integrate_while_the_drift_is_small() {
    let mut stepped = at_rest(Vector3::new(6_378_137 * ONE, 0, 0));
    let mut advanced = stepped;
    for i in 1..=200 {
        let imu = ImuMeasurement {
            t: i * 10_000_000,
            d_v: Vector3::new(1_000_000_000, 0, -2_000_000_000),
            d_theta: Vector3::new(3_000_000_000, -2_000_000_000, 5_000_000_000),
        };
        let angle = stepped.rotation_angle(&imu).unwrap();
        assert_eq!(advanced.rotation_angle(&imu), Ok(angle));
        assert_eq!(stepped.integrate(&imu, &Vector3::zeros(), &sin_cos(angle)), Ok(()));
        let drift = advanced.advance(&imu, &Vector3::zeros(), &sin_cos(angle)).unwrap();
        assert_eq!(Ok(drift), stepped.orthonormality_error());
        assert!(drift <= DRIFT_LIMIT);
        assert_eq!(advanced, stepped);
    }
}

#[test]
fn advance_renormalizes_a_drifted_attitude() {
    let drifted = Matrix3::new(
        1_001_000_000_000,
        2_000_000_000,
        0,
        -1_000_000_000,
        999_000_000_000,
        1_000_000_000,
        0,
        500_000_000,
        1_000_500_000_000,
    );
    let start = Strapdown::new(
        0,
        NavState {
            position: Vector3::new(6_378_137 * ONE, 0, 0),
            velocity: Vector3::new(ONE, 2 * ONE, 3 * ONE),
            body_to_ecef: drifted,
        },
    );
    let imu = ImuMeasurement {
        t: 10_000_000,
        d_v: Vector3::new(1_000_000_000, 0, 0),
        d_theta: Vector3::new(0, 0, 1_000_000_000),
    };
    let mut stepped = start;
    let angle = stepped.rotation_angle(&imu).unwrap();
    assert_eq!(stepped.integrate(&imu, &Vector3::zeros(), &sin_cos(angle)), Ok(()));
    let raw = stepped.orthonormality_error().unwrap();
    assert!(raw > DRIFT_LIMIT);
    let mut advanced = start;
    let drift = advanced.advance(&imu, &Vector3::zeros(), &sin_cos(angle)).unwrap();
    assert!(drift <= DRIFT_LIMIT);
    assert_eq!(Ok(drift), advanced.orthonormality_error());
    let once = renormalized(&stepped.nav_state.body_to_ecef).unwrap();
    assert!(orthonormality_error(&once).unwrap() > DRIFT_LIMIT);
    assert_eq!(advanced.nav_state.body_to_ecef, renormalized(&once).unwrap());
    let twice = renormalized(&once).unwrap();
    assert_eq!(settled(&stepped.nav_state.body_to_ecef, 3), Ok((twice, drift)));
    assert_eq!(settled(&stepped.nav_state.body_to_ecef, 1), Err(NavError::Drifted));
    assert_eq!(settled(&once, 1), Ok((renormalized(&once).unwrap(), drift)));
    assert_eq!(settled(&Matrix3::identity(), 0), Ok((Matrix3::identity(), 0)));
    assert_eq!(advanced.nav_state.position, stepped.nav_state.position);
    assert_eq!(advanced.nav_state.velocity, stepped.nav_state.velocity);
    assert_eq!(advanced.v_dot_prev, stepped.v_dot_prev);
    assert_eq!(advanced.nav_state_prev, stepped.nav_state_prev);
    assert_eq!(advanced.t, stepped.t);
    // Step after step the drift stays under the limit.
    for i in 2..=2000 {
        let imu = ImuMeasurement { t: i * 10_000_000, ..imu };
        let angle = advanced.rotation_angle(&imu).unwrap();
        let drift = advanced.advance(&imu, &Vector3::zeros(), &sin_cos(angle)).unwrap();
        assert!(drift <= DRIFT_LIMIT, "{i}: {drift}");
    }
}

#[test]
fn advance_reports_an_attitude_beyond_mending() {
    let zero = Matrix3::new(0, 0, 0, 0, 0, 0, 0, 0, 0);
    let mut s = Strapdown::new(
        0,
        NavState { position: Vector3::zeros(), velocity: Vector3::zeros(), body_to_ecef: zero },
    );
    let before = s;
    let imu = ImuMeasurement {
        t: 10_000_000,
        d_v: Vector3::zeros(),
        d_theta: Vector3::new(0, 0, 1_000_000_000),
    };
    let angle = s.rotation_angle(&imu).unwrap();
    assert_eq!(s.advance(&imu, &Vector3::zeros(), &sin_cos(angle)), Err(NavError::Drifted));
    assert_eq!(s, before);
    assert_eq!(settled(&zero, 3), Err(NavError::Drifted));
    // Integrating alone does not look at the drift.
    assert_eq!(s.integrate(&imu, &Vector3::zeros(), &sin_cos(angle)), Ok(()));
    assert_eq!(s.orthonormality_error(), Ok(1_732_050_807_568));
}

#[test]
fn rodrigues_quarter_turn_about_each_axis() {
    let quarter = Angle { sin: ONE, cos: 0 };
    let dt = ONE;
    assert_eq!(
        attitude_increment(&Vector3::new(ONE, 0, 0), dt, &quarter),
        Ok(Matrix3::new(ONE, 0, 0, 0, 0, -ONE, 0, ONE, 0))
    );
    assert_eq!(
        attitude_increment(&Vector3::new(0, 2 * ONE, 0), dt, &quarter),
        Ok(Matrix3::new(0, 0, ONE, 0, ONE, 0, -ONE, 0, 0))
    );
    assert_eq!(
        attitude_increment(&Vector3::new(0, 0, -3 * ONE), dt, &quarter),
        Ok(Matrix3::new(0, ONE, 0, -ONE, 0, 0, 0, 0, ONE))
    );
}

#[test]
fn trapezoid_rule() {
    let x = Vector3::new(ONE, 2 * ONE, 3 * ONE);
    let a = Vector3::new(ONE, 0, -ONE);
    let b = Vector3::new(3 * ONE, 2 * ONE, -ONE);
    assert_eq!(trapezoid(&x, &a, &b, ONE / 2), Ok(Vector3::new(2 * ONE, 5 * ONE / 2, 5 * ONE / 2)));
    assert_eq!(trapezoid(&x, &a, &b, 0), Ok(x));
    assert_eq!(
        trapezoid(&Vector3::new(i64::MAX, 0, 0), &a, &b, ONE),
        Err(NavError::OutOfRange)
    );
}

#[test]
fn acceleration_terms() {
    let zero = Vector3::zeros();
    let identity = Matrix3::identity();
    let dt = ONE / 10;
    // Specific force and gravity alone.
    let d_v = Vector3::new(ONE / 10, 0, 0);
    let g = Vector3::new(0, 0, -GEQ);
    assert_eq!(
        acceleration(&zero, &zero, &identity, &d_v, dt, &g),
        Ok(Vector3::new(ONE, 0, -GEQ))
    );
    // A velocity of 100 m/s along y: Coriolis -2 w x v along x, and the
    // centrifugal term of the 10 m covered in the step along y.
    let v = Vector3::new(0, 100 * ONE, 0);
    let a = acceleration(&v, &zero, &identity, &zero, dt, &zero).unwrap();
    assert_eq!(a, Vector3::new(200 * OMEGA_EARTH, 53_175, 0));
    assert_eq!(acceleration(&zero, &zero, &identity, &d_v, 0, &g), Err(NavError::OutOfRange));
}

#[test]
fn orthonormality_drift_stays_bounded() {
    let mut s = at_rest(Vector3::new(6_378_137 * ONE, 0, 0));
    assert_eq!(s.orthonormality_error(), Ok(0));
    let mut worst = 0;
    for i in 1..=1000 {
        let imu = ImuMeasurement {
            t: i * 10_000_000,
            d_v: Vector3::zeros(),
            d_theta: Vector3::new(3_000_000_000, -2_000_000_000, 5_000_000_000),
        };
        assert_eq!(step(&mut s, &imu, &Vector3::zeros()), Ok(()));
        worst = worst.max(s.orthonormality_error().unwrap());
    }
    // A thousand steps of 0.01 s: the drift is a few units in the last place
    // per step at most.
    assert!(worst < 1_000, "worst {worst}");
    let before = s;
    assert_eq!(s.renormalize(), Ok(()));
    assert!(s.orthonormality_error().unwrap() <= 5);
    assert_eq!(s.nav_state.position, before.nav_state.position);
    assert_eq!(s.nav_state.velocity, before.nav_state.velocity);
    assert_eq!(s.t, before.t);
    // Renormalizing every hundred steps keeps the drift small for good.
    for i in 1001..=3000 {
        let imu = ImuMeasurement {
            t: i * 10_000_000,
            d_v: Vector3::zeros(),
            d_theta: Vector3::new(3_000_000_000, -2_000_000_000, 5_000_000_000),
        };
        assert_eq!(step(&mut s, &imu, &Vector3::zeros()), Ok(()));
        if i % 100 == 0 {
            assert_eq!(s.renormalize(), Ok(()));
        }
        assert!(s.orthonormality_error().unwrap() < 100);
    }
}

#[test]
fn renormalized_pulls_a_matrix_to_orthonormal() {
    let bad = Matrix3::new(
        1_001_000_000_000,
        2_000_000_000,
        0,
        -1_000_000_000,
        999_000_000_000,
        1_000_000_000,
        0,
        500_000_000,
        1_000_500_000_000,
    );
    assert_eq!(orthonormality_error(&bad), Ok(3_936_629_807));
    let once = renormalized(&bad).unwrap();
    assert_eq!(
        once,
        Matrix3::new(
            999_996_996_000,
            1_499_993_250,
            -998_750,
            -1_499_997_000,
            999_996_129_500,
            250_623_500,
            249_500,
            -249_501_125,
            999_998_749_875
        )
    );
    assert_eq!(orthonormality_error(&once), Ok(7_387_616));
    let twice = renormalized(&once).unwrap();
    assert_eq!(orthonormality_error(&twice), Ok(30));
    assert_eq!(renormalized(&Matrix3::identity()), Ok(Matrix3::identity()));
}

#[test]
fn normal_gravity_points_to_the_centre() {
    assert_eq!(normal_gravity(&Vector3::new(6_378_137 * ONE, 0, 0)), Ok(Vector3::new(-GEQ, 0, 0)));
    assert_eq!(normal_gravity(&Vector3::new(0, 0, -5 * ONE)), Ok(Vector3::new(0, 0, GEQ)));
    assert_eq!(normal_gravity(&Vector3::zeros()), Ok(Vector3::zeros()));
    let g = normal_gravity(&Vector3::new(3_000_000 * ONE, 4_000_000 * ONE, 0)).unwrap();
    assert_eq!(g, Vector3::new(-5_868_196_062_900, -7_824_261_417_200, 0));
}

#[test]
fn motion_without_increment_does_not_depend_on_the_attitude() {
    let position = Vector3::new(
        -236_436_139_272_000_000,
        -4_511_470_291_372_000_000,
        4_487_419_119_437_000_000,
    );
    let tilted = Matrix3::new(
        0,
        -ONE,
        0,
        600_000_000_000,
        0,
        -800_000_000_000,
        800_000_000_000,
        0,
        600_000_000_000,
    );
    let mut runs = [
        Strapdown::new(
            0,
            NavState { position, velocity: Vector3::zeros(), body_to_ecef: Matrix3::identity() },
        ),
        Strapdown::new(0, NavState { position, velocity: Vector3::zeros(), body_to_ecef: tilted }),
    ];
    for i in 1..=10 {
        let imu = ImuMeasurement {
            t: i * 100_000_000,
            d_v: Vector3::zeros(),
            d_theta: Vector3::zeros(),
        };
        let gravity = normal_gravity(&runs[0].nav_state.position).unwrap();
        for s in runs.iter_mut() {
            assert_eq!(step(s, &imu, &gravity), Ok(()));
        }
        assert_eq!(runs[0].nav_state.position, runs[1].nav_state.position);
        assert_eq!(runs[0].nav_state.velocity, runs[1].nav_state.velocity);
        assert_eq!(runs[0].v_dot_prev, runs[1].v_dot_prev);
    }
    assert_ne!(runs[0].nav_state.body_to_ecef, runs[1].nav_state.body_to_ecef);
    // With nothing to hold it the body falls. The trapezoidal rule starts
    // from a rate of change of zero, so the first of the ten steps counts
    // for half: after the second the speed is 0.95 of gravity's pull over
    // a second, to a part in a thousand.
    let v = runs[0].nav_state.velocity;
    let speed = v.norm().unwrap();
    assert!((speed - GEQ / 100 * 95).abs() < GEQ / 1_000, "{speed}");
    assert!(runs[0].nav_state.position != position);
}
