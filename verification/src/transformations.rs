//! Coordinate transformation functions.
//!
//! Angles are held by their sine and cosine (`Angle`), so every formula here
//! is algebraic: sums, rounded products and quotients, and square roots.
use crate::constants::A;
use crate::constants::AXIS_RATIO;
use crate::constants::E2;
use crate::constants::E2_A;
use crate::constants::E2_SECOND_B;
use crate::fixed::difference;
use crate::fixed::floor_root;
use crate::fixed::integer_root;
use crate::fixed::lemma_floor_root_between;
use crate::fixed::lemma_floor_root_exists;
use crate::fixed::lemma_floor_root_unique;
use crate::fixed::lemma_product_value_negations;
use crate::fixed::lemma_product_value_odd;
use crate::fixed::lemma_product_value_units;
use crate::fixed::lemma_quotient_value_units;
use crate::fixed::lemma_product_value_contracts;
use crate::fixed::lemma_product_value_error;
use crate::fixed::lemma_quotient_value_error;
use crate::fixed::lemma_product_value_rounding;
use crate::fixed::lemma_product_value_sign;
use crate::fixed::lemma_product_value_symmetric;
use crate::fixed::lemma_quotient_value_range;
use crate::fixed::lemma_quotient_value_of_zero;
use crate::fixed::lemma_quotient_value_unit;
use crate::fixed::lemma_round_div_at_least;
use crate::fixed::lemma_round_div_monotone;
use crate::fixed::lemma_round_div_range;
use crate::fixed::magnitude;
use crate::fixed::magnitude_of;
use crate::fixed::narrow;
use crate::fixed::negated;
use crate::fixed::product;
use crate::fixed::product_value;
use crate::fixed::product_wide;
use crate::fixed::quotient;
use crate::fixed::quotient_by_magnitude;
use crate::fixed::quotient_value;
use crate::fixed::representable;
use crate::fixed::root;
use crate::fixed::root_value;
use crate::fixed::round_div;
use crate::fixed::square_of;
use crate::fixed::sum;
use crate::fixed::ONE;
use crate::linalg::Mat3;
use crate::linalg::Matrix3;
use crate::linalg::Vec3;
use crate::linalg::Vector3;
use crate::types::Angle;
use crate::types::Geodetic;
use crate::types::NavError;
use vstd::prelude::*;

verus! {

/// The length of the plane vector `(x, y)`, rounded down.
pub open spec fn hypot_value(y: int, x: int) -> int {
    floor_root(x * x + y * y)
}

/// The angle of the plane vector `(x, y)` from the x axis: its components
/// over its length. The zero vector has the angle zero.
pub open spec fn spec_direction(y: i64, x: i64) -> Angle {
    let h = hypot_value(y as int, x as int);
    if h == 0 {
        Angle { sin: 0, cos: ONE }
    } else {
        Angle {
            sin: quotient_value(y as int, h) as i64,
            cos: quotient_value(x as int, h) as i64,
        }
    }
}

/// The largest stored value whose square is at most one half: of the sine
/// and cosine of a direction, the larger is at least this.
pub const UNIT_DIAGONAL: i64 = 707_106_781_186;

impl Angle {
    /// The angle whose tangent is `y / x`, in the quadrant of `(x, y)`: what
    /// a two-argument arctangent of `y` and `x` stands for.
    pub fn from_components(y: i64, x: i64) -> (r: Angle)
        ensures
            r == spec_direction(y, x),
            r.bounded(),
    {
        let h: u128 = integer_root(square_of(y) + square_of(x));
        if h == 0 {
            Angle { sin: 0, cos: ONE }
        } else {
            proof {
                let n = x * x + y * y;
                assert(magnitude(y as int) <= h && magnitude(x as int) <= h) by (nonlinear_arith)
                    requires
                        n == x * x + y * y,
                        n < (h + 1) * (h + 1),
                        0 <= h,
                ;
                lemma_quotient_value_unit(y as int, h as int);
                lemma_quotient_value_unit(x as int, h as int);
            }
            let s: i128 = quotient_by_magnitude(y, h);
            let c: i128 = quotient_by_magnitude(x, h);
            Angle { sin: s as i64, cos: c as i64 }
        }
    }
}

/// The rotation from ECEF to the local north-east-down frame at `lla`.
pub open spec fn ecef_to_ned_value(lla: Geodetic) -> Mat3 {
    let slat = lla.lat.sin as int;
    let clat = lla.lat.cos as int;
    let slon = lla.lon.sin as int;
    let clon = lla.lon.cos as int;
    Mat3 {
        r0: Vec3 { x: -product_value(slat, clon), y: -product_value(slat, slon), z: clat },
        r1: Vec3 { x: -slon, y: clon, z: 0 },
        r2: Vec3 { x: -product_value(clat, clon), y: -product_value(clat, slon), z: -slat },
    }
}

/// The rotation from the local north-east-down frame at `lla` to ECEF: its
/// columns are the north, east and down directions in ECEF.
pub open spec fn ned_to_ecef_value(lla: Geodetic) -> Mat3 {
    let slat = lla.lat.sin as int;
    let clat = lla.lat.cos as int;
    let slon = lla.lon.sin as int;
    let clon = lla.lon.cos as int;
    Mat3 {
        r0: Vec3 { x: -product_value(slat, clon), y: -slon, z: -product_value(clat, clon) },
        r1: Vec3 { x: -product_value(slat, slon), y: clon, z: -product_value(clat, slon) },
        r2: Vec3 { x: clat, y: 0, z: -slat },
    }
}

/// Get the transformation matrix from ECEF to NED.
///
/// * `lla` - latitude and longitude of the frame's origin; the altitude is
///   not used
///
/// There is none only if a sine or cosine of `lla` is `i64::MIN` or a
/// product of two of them cannot be stored; for bounded angles there is one.
/// For the sines and cosines of angles it is orthonormal to within thirteen
/// units in the last place.
pub fn ecef_to_ned_transformation(lla: &Geodetic) -> (r: Result<Matrix3, NavError>)
    ensures
        r == ecef_to_ned_value(*lla).narrowed(),
        lla.bounded() ==> r is Ok,
        r matches Ok(m) ==> (lla.lat.valid() && lla.lon.valid() ==> m@.orthonormal_within(13)),
        r matches Err(e) ==> e == NavError::OutOfRange,
{
    proof {
        if lla.bounded() {
            lemma_rotations_succeed(*lla);
        }
        if lla.lat.valid() && lla.lon.valid() {
            lemma_ecef_to_ned_is_orthonormal(*lla);
        }
    }
    let slat: i64 = lla.lat.sin;
    let clat: i64 = lla.lat.cos;
    let slon: i64 = lla.lon.sin;
    let clon: i64 = lla.lon.cos;
    let r0: Vector3 = Vector3::new(
        narrow(-product_wide(slat, clon))?,
        narrow(-product_wide(slat, slon))?,
        narrow(clat as i128)?,
    );
    let r1: Vector3 = Vector3::new(negated(slon)?, narrow(clon as i128)?, 0);
    let r2: Vector3 = Vector3::new(
        narrow(-product_wide(clat, clon))?,
        narrow(-product_wide(clat, slon))?,
        negated(slat)?,
    );
    Ok(Matrix3 { r0, r1, r2 })
}

/// Get the transformation matrix from NED to ECEF: the transpose of the
/// matrix from ECEF to NED.
pub fn ned_to_ecef_transformation(lla: &Geodetic) -> (r: Result<Matrix3, NavError>)
    ensures
        r == ned_to_ecef_value(*lla).narrowed(),
        r == ecef_to_ned_value(*lla).transpose().narrowed(),
        lla.bounded() ==> r is Ok,
        r matches Ok(m) ==> (lla.lat.valid() && lla.lon.valid() ==> m@.orthonormal_within(13)),
        r matches Err(e) ==> e == NavError::OutOfRange,
{
    proof {
        if lla.lat.valid() && lla.lon.valid() {
            lemma_ned_to_ecef_is_orthonormal(*lla);
        }
    }
    let m: Matrix3 = ecef_to_ned_transformation(lla)?;
    Ok(m.transpose())
}

/// Whether the prime vertical radius of curvature at a latitude of sine
/// `slat` can be computed with every intermediate value stored.
pub open spec fn prime_vertical_fits(slat: int) -> bool {
    let s2 = product_value(slat, slat);
    let e = product_value(E2 as int, s2);
    let w = ONE - e;
    &&& representable(s2)
    &&& representable(e)
    &&& representable(w)
    &&& w >= 0
    &&& root_value(w) != 0
    &&& representable(prime_vertical_value(slat))
}

/// The prime vertical radius of curvature `A / sqrt(1 - E2 sin^2(lat))`.
pub open spec fn prime_vertical_value(slat: int) -> int {
    quotient_value(A as int, root_value(ONE - product_value(E2 as int, product_value(slat, slat))))
}

/// The prime vertical radius of curvature, or the error.
pub open spec fn spec_prime_vertical(slat: i64) -> Result<i64, NavError> {
    if prime_vertical_fits(slat as int) {
        Ok(prime_vertical_value(slat as int) as i64)
    } else {
        Err(NavError::OutOfRange)
    }
}

/// The prime vertical radius of curvature at a latitude of sine `sin_lat`.
pub fn prime_vertical_radius(sin_lat: i64) -> (r: Result<i64, NavError>)
    ensures
        r == spec_prime_vertical(sin_lat),
{
    let s2: i64 = product(sin_lat, sin_lat)?;
    let e: i64 = product(E2, s2)?;
    let w: i64 = difference(ONE, e)?;
    let rt: i64 = root(w)?;
    quotient(A, rt)
}

/// No prime vertical radius of curvature exceeds this (m).
pub const MAX_PRIME_VERTICAL: i64 = 6_400_000_000_000_000_000;

/// The largest altitude (m) for which every position on the globe has an
/// ECEF position that can be stored.
pub const MAX_ALTITUDE: i64 = 2_800_000_000_000_000_000;

/// The distance of a geodetic position from the polar axis,
/// `(N + alt) cos(lat)`.
pub open spec fn axis_reach(lla: Geodetic) -> int {
    product_value(prime_vertical_value(lla.lat.sin as int) + lla.alt, lla.lat.cos as int)
}

/// The ECEF position of a geodetic one, before narrowing:
/// `x = (N + alt) cos(lat) cos(lon)`, `y = (N + alt) cos(lat) sin(lon)`,
/// `z = ((1 - E2) N + alt) sin(lat)`.
pub open spec fn lla_to_ecef_value(lla: Geodetic) -> Vec3 {
    let n = prime_vertical_value(lla.lat.sin as int);
    let rc = axis_reach(lla);
    Vec3 {
        x: product_value(rc, lla.lon.cos as int),
        y: product_value(rc, lla.lon.sin as int),
        z: product_value(product_value(ONE - E2, n) + lla.alt, lla.lat.sin as int),
    }
}

/// Whether every intermediate value of `lla_to_ecef_value` can be stored.
pub open spec fn lla_to_ecef_fits(lla: Geodetic) -> bool {
    let n = prime_vertical_value(lla.lat.sin as int);
    &&& prime_vertical_fits(lla.lat.sin as int)
    &&& representable(n + lla.alt)
    &&& representable(axis_reach(lla))
    &&& representable(product_value(ONE - E2, n))
    &&& representable(product_value(ONE - E2, n) + lla.alt)
    &&& lla_to_ecef_value(lla).fits()
}

/// The ECEF position of a geodetic one, or the error.
pub open spec fn spec_lla_to_ecef(lla: Geodetic) -> Result<Vector3, NavError> {
    if lla_to_ecef_fits(lla) {
        Ok(lla_to_ecef_value(lla).narrow())
    } else {
        Err(NavError::OutOfRange)
    }
}

/// Transform an LLA position to ECEF.
///
/// * `lla` - latitude, longitude and altitude above the WGS84 ellipsoid
///
/// Returns the ECEF position (m). There is one for every position with
/// bounded angles and an altitude of at most `MAX_ALTITUDE`.
pub fn lla_to_ecef(lla: &Geodetic) -> (r: Result<Vector3, NavError>)
    ensures
        r == spec_lla_to_ecef(*lla),
        lla.bounded() && -i64::MAX <= lla.alt <= MAX_ALTITUDE ==> r is Ok,
{
    proof {
        if lla.bounded() && -i64::MAX <= lla.alt <= MAX_ALTITUDE {
            lemma_lla_to_ecef_succeeds(*lla);
        }
    }
    let n: i64 = prime_vertical_radius(lla.lat.sin)?;
    let radius: i64 = sum(n, lla.alt)?;
    let rc: i64 = product(radius, lla.lat.cos)?;
    let polar: i64 = product(ONE - E2, n)?;
    let height: i64 = sum(polar, lla.alt)?;
    let x: i64 = product(rc, lla.lon.cos)?;
    let y: i64 = product(rc, lla.lon.sin)?;
    let z: i64 = product(height, lla.lat.sin)?;
    Ok(Vector3 { x, y, z })
}

/// The distance of an ECEF position from the polar axis, or the error when
/// it cannot be stored.
pub open spec fn spec_axis_distance(ecef: Vector3) -> Result<i64, NavError> {
    let p = hypot_value(ecef.y as int, ecef.x as int);
    if representable(p) {
        Ok(p as i64)
    } else {
        Err(NavError::OutOfRange)
    }
}

/// The distance of an ECEF position from the polar axis.
pub fn axis_distance(ecef: &Vector3) -> (r: Result<i64, NavError>)
    ensures
        r == spec_axis_distance(*ecef),
        r matches Ok(p) ==> p == hypot_value(ecef.y as int, ecef.x as int),
{
    let h: u128 = integer_root(square_of(ecef.y) + square_of(ecef.x));
    narrow(h as i128)
}

/// The auxiliary angle of the closed-form latitude: the angle of
/// `(B p, A z)`, taken as that of `(p B / A, z)`.
pub open spec fn spec_auxiliary_angle(p: i64, z: i64) -> Result<Angle, NavError> {
    let bp = product_value(p as int, AXIS_RATIO as int);
    if representable(bp) {
        Ok(spec_direction(z, bp as i64))
    } else {
        Err(NavError::OutOfRange)
    }
}

/// The auxiliary angle `atan2(A z, B p)` of a position at distance `p` from
/// the polar axis and height `z` above the equator.
pub fn auxiliary_angle(p: i64, z: i64) -> (r: Result<Angle, NavError>)
    ensures
        r == spec_auxiliary_angle(p, z),
{
    let bp: i64 = product(p, AXIS_RATIO)?;
    Ok(Angle::from_components(z, bp))
}

/// The cube of a stored value, rounded after each product.
pub open spec fn cube_value(a: int) -> int {
    product_value(product_value(a, a), a)
}

/// The numerator of the latitude's tangent, `z + E2_SECOND B sin^3(theta)`.
pub open spec fn latitude_rise(z: int, theta: Angle) -> int {
    z + product_value(E2_SECOND_B as int, cube_value(theta.sin as int))
}

/// The denominator of the latitude's tangent, `p - E2 A cos^3(theta)`.
pub open spec fn latitude_run(p: int, theta: Angle) -> int {
    p - product_value(E2_A as int, cube_value(theta.cos as int))
}

/// Whether every intermediate value of the latitude can be stored.
pub open spec fn latitude_fits(p: int, z: int, theta: Angle) -> bool {
    let s = theta.sin as int;
    let c = theta.cos as int;
    &&& representable(product_value(s, s))
    &&& representable(cube_value(s))
    &&& representable(product_value(c, c))
    &&& representable(cube_value(c))
    &&& representable(product_value(E2_SECOND_B as int, cube_value(s)))
    &&& representable(product_value(E2_A as int, cube_value(c)))
    &&& representable(latitude_rise(z, theta))
    &&& representable(latitude_run(p, theta))
}

/// The pole on the side of `z`: the north pole for `z` zero.
pub open spec fn pole_of(z: i64) -> Angle {
    Angle { sin: if z < 0 {
        (-ONE) as i64
    } else {
        ONE
    }, cos: 0 }
}

/// The latitude whose tangent is `rise / run`: the angle of `(run, rise)`
/// where the run is positive. Where it is not, which happens only deep
/// inside the Earth and on the polar axis, the latitude is the pole on the
/// side of `z`.
pub open spec fn latitude_direction(z: i64, rise: i64, run: i64) -> Angle {
    if run <= 0 {
        pole_of(z)
    } else {
        spec_direction(rise, run)
    }
}

/// The geodetic latitude from the auxiliary angle `theta`:
/// `atan2(z + E2_SECOND B sin^3(theta), p - E2 A cos^3(theta))`, and the
/// pole where the second argument is not positive.
pub open spec fn spec_latitude(p: i64, z: i64, theta: Angle) -> Result<Angle, NavError> {
    if latitude_fits(p as int, z as int, theta) {
        Ok(
            latitude_direction(
                z,
                latitude_rise(z as int, theta) as i64,
                latitude_run(p as int, theta) as i64,
            ),
        )
    } else {
        Err(NavError::OutOfRange)
    }
}

/// The geodetic latitude of a position from its auxiliary angle.
///
/// Its cosine is never negative: the latitude lies between the poles.
pub fn latitude(p: i64, z: i64, theta: &Angle) -> (r: Result<Angle, NavError>)
    ensures
        r == spec_latitude(p, z, *theta),
        r matches Ok(lat) ==> lat.bounded() && lat.cos >= 0,
{
    proof {
        lemma_direction_bounds(
            latitude_rise(z as int, *theta) as i64,
            latitude_run(p as int, *theta) as i64,
        );
    }
    let s2: i64 = product(theta.sin, theta.sin)?;
    let s3: i64 = product(s2, theta.sin)?;
    let c2: i64 = product(theta.cos, theta.cos)?;
    let c3: i64 = product(c2, theta.cos)?;
    let up: i64 = product(E2_SECOND_B, s3)?;
    let along: i64 = product(E2_A, c3)?;
    let rise: i64 = sum(z, up)?;
    let run: i64 = difference(p, along)?;
    if run <= 0 {
        if z < 0 {
            Ok(Angle { sin: -ONE, cos: 0 })
        } else {
            Ok(Angle { sin: ONE, cos: 0 })
        }
    } else {
        Ok(Angle::from_components(rise, run))
    }
}

/// Whether the height is taken from the polar axis distance (`p / cos(lat)
/// - N`) rather than from the height above the equator.
pub open spec fn uses_equatorial_form(lat: Angle) -> bool {
    magnitude(lat.cos as int) >= magnitude(lat.sin as int)
}

/// The height above the ellipsoid, before narrowing: `p / cos(lat) - N`
/// where the cosine is the larger of the two, else the polar form
/// `z / sin(lat) - N (1 - E2)`.
pub open spec fn height_value(p: int, z: int, lat: Angle) -> int {
    let n = prime_vertical_value(lat.sin as int);
    if uses_equatorial_form(lat) {
        quotient_value(p, lat.cos as int) - n
    } else {
        quotient_value(z, lat.sin as int) - product_value(n, ONE - E2)
    }
}

/// Whether every intermediate value of the height can be stored.
pub open spec fn height_fits(p: int, z: int, lat: Angle) -> bool {
    let n = prime_vertical_value(lat.sin as int);
    &&& prime_vertical_fits(lat.sin as int)
    &&& if uses_equatorial_form(lat) {
        lat.cos != 0 && representable(quotient_value(p, lat.cos as int))
    } else {
        representable(quotient_value(z, lat.sin as int)) && representable(
            product_value(n, ONE - E2),
        )
    }
    &&& representable(height_value(p, z, lat))
}

/// The height above the ellipsoid, or the error.
pub open spec fn spec_height(p: i64, z: i64, lat: Angle) -> Result<i64, NavError> {
    if height_fits(p as int, z as int, lat) {
        Ok(height_value(p as int, z as int, lat) as i64)
    } else {
        Err(NavError::OutOfRange)
    }
}

/// The height above the ellipsoid of a position at latitude `lat`.
///
/// Near the poles the cosine of the latitude is too small to divide by, so
/// the height is taken from whichever of the two forms divides by the larger
/// of the sine and the cosine.
pub fn height(p: i64, z: i64, lat: &Angle) -> (r: Result<i64, NavError>)
    ensures
        r == spec_height(p, z, *lat),
{
    let n: i64 = prime_vertical_radius(lat.sin)?;
    if magnitude_of(lat.cos) >= magnitude_of(lat.sin) {
        let slant: i64 = quotient(p, lat.cos)?;
        difference(slant, n)
    } else {
        let slant: i64 = quotient(z, lat.sin)?;
        let polar: i64 = product(n, ONE - E2)?;
        difference(slant, polar)
    }
}

/// The largest distance from the polar axis and from the equatorial plane
/// (m) for which `ecef_to_lla` is sure to succeed.
pub const MAX_RADIUS: i64 = 6_500_000_000_000_000_000;

/// Whether an ECEF position lies within `MAX_RADIUS` of the polar axis and
/// of the equatorial plane.
pub open spec fn within_reach(ecef: Vector3) -> bool {
    &&& ecef.x * ecef.x + ecef.y * ecef.y <= MAX_RADIUS * MAX_RADIUS
    &&& -MAX_RADIUS <= ecef.z <= MAX_RADIUS
}

/// The geodetic position of an ECEF one, or the error.
pub open spec fn spec_ecef_to_lla(ecef: Vector3) -> Result<Geodetic, NavError> {
    match spec_axis_distance(ecef) {
        Ok(p) => match spec_auxiliary_angle(p, ecef.z) {
            Ok(theta) => match spec_latitude(p, ecef.z, theta) {
                Ok(lat) => match spec_height(p, ecef.z, lat) {
                    Ok(alt) => Ok(Geodetic { lat, lon: spec_direction(ecef.y, ecef.x), alt }),
                    Err(e) => Err(e),
                },
                Err(e) => Err(e),
            },
            Err(e) => Err(e),
        },
        Err(e) => Err(e),
    }
}

/// Transform an ECEF position to LLA, in closed form.
///
/// * `ecef` - the ECEF position (m)
///
/// Returns latitude, longitude and altitude above the WGS84 ellipsoid. The
/// latitude lies between the poles: its cosine is never negative. On the
/// polar axis the longitude is zero, and there, as deep inside the Earth
/// where the closed form has no latitude, the latitude is the pole on the
/// side of `z` and the altitude is taken by the polar form; at the centre
/// it is the north pole. There is a result for every position within
/// `MAX_RADIUS` of the polar axis and of the equatorial plane.
pub fn ecef_to_lla(ecef: &Vector3) -> (r: Result<Geodetic, NavError>)
    ensures
        r == spec_ecef_to_lla(*ecef),
        within_reach(*ecef) ==> r is Ok,
        r matches Ok(lla) ==> lla.bounded() && lla.lat.cos >= 0,
        r matches Err(e) ==> e == NavError::OutOfRange,
{
    proof {
        if within_reach(*ecef) {
            lemma_ecef_to_lla_succeeds(*ecef);
        }
        if let Ok(lla) = spec_ecef_to_lla(*ecef) {
            let p = spec_axis_distance(*ecef)->Ok_0;
            let theta = spec_auxiliary_angle(p, ecef.z)->Ok_0;
            lemma_direction_bounds(
                latitude_rise(ecef.z as int, theta) as i64,
                latitude_run(p as int, theta) as i64,
            );
            lemma_direction_bounds(ecef.y, ecef.x);
        }
    }
    let p: i64 = axis_distance(ecef)?;
    let theta: Angle = auxiliary_angle(p, ecef.z)?;
    let lat: Angle = latitude(p, ecef.z, &theta)?;
    let alt: i64 = height(p, ecef.z, &lat)?;
    let lon: Angle = Angle::from_components(ecef.y, ecef.x);
    Ok(Geodetic { lat, lon, alt })
}

/// The highest altitude (m) from which a geodetic position is sure to make
/// the way to ECEF and back.
pub const ROUND_TRIP_CEILING: i64 = 50_000_000_000_000_000;

/// The lowest altitude (m) from which it is.
pub const ROUND_TRIP_FLOOR: i64 = -6_000_000_000_000_000_000;

/// The sine and cosine of a direction lie between minus one and one and have
/// the signs of the vector's components, and the larger of the two is at
/// least `UNIT_DIAGONAL` in magnitude.
pub proof fn lemma_direction_bounds(y: i64, x: i64)
    ensures
        spec_direction(y, x).bounded(),
        y >= 0 ==> spec_direction(y, x).sin >= 0,
        y <= 0 ==> spec_direction(y, x).sin <= 0,
        x > 0 ==> spec_direction(y, x).cos >= 0,
        x < 0 ==> spec_direction(y, x).cos <= 0,
        magnitude(spec_direction(y, x).cos as int) >= magnitude(spec_direction(y, x).sin as int)
            ==> magnitude(spec_direction(y, x).cos as int) >= UNIT_DIAGONAL,
        magnitude(spec_direction(y, x).sin as int) >= magnitude(spec_direction(y, x).cos as int)
            ==> magnitude(spec_direction(y, x).sin as int) >= UNIT_DIAGONAL,
{
    let n = x * x + y * y;
    assert(0 <= x * x && 0 <= y * y) by (nonlinear_arith);
    lemma_floor_root_exists(n);
    let h = hypot_value(y as int, x as int);
    if h != 0 {
        let my = magnitude(y as int);
        let mx = magnitude(x as int);
        assert(my <= h && mx <= h) by (nonlinear_arith)
            requires
                n == x * x + y * y,
                n < (h + 1) * (h + 1),
                0 <= h,
                my == magnitude(y as int),
                mx == magnitude(x as int),
        ;
        lemma_quotient_value_unit(y as int, h);
        lemma_quotient_value_unit(x as int, h);
        assert(magnitude(y * ONE) == my * ONE && magnitude(x * ONE) == mx * ONE && (y * ONE < 0
            <==> y < 0) && (x * ONE < 0 <==> x < 0)) by (nonlinear_arith)
            requires
                my == magnitude(y as int),
                mx == magnitude(x as int),
                ONE == 1_000_000_000_000,
        ;
        assert(my * ONE <= ONE * h && mx * ONE <= ONE * h) by (nonlinear_arith)
            requires
                my <= h,
                mx <= h,
                ONE == 1_000_000_000_000,
        ;
        assert(0 <= my * ONE && 0 <= mx * ONE) by (nonlinear_arith)
            requires
                0 <= my,
                0 <= mx,
                ONE == 1_000_000_000_000,
        ;
        lemma_round_div_range(my * ONE, h, ONE as int);
        lemma_round_div_range(mx * ONE, h, ONE as int);
        assert(quotient_value(y as int, h) == if y < 0 {
            -round_div(my * ONE, h)
        } else {
            round_div(my * ONE, h)
        });
        assert(quotient_value(x as int, h) == if x < 0 {
            -round_div(mx * ONE, h)
        } else {
            round_div(mx * ONE, h)
        });
        let m = if mx >= my {
            mx
        } else {
            my
        };
        assert(m * m >= x * x && m * m >= y * y) by (nonlinear_arith)
            requires
                m >= mx,
                m >= my,
                mx == magnitude(x as int),
                my == magnitude(y as int),
        ;
        assert(UNIT_DIAGONAL * h <= m * ONE) by (nonlinear_arith)
            requires
                h * h <= n,
                n == x * x + y * y,
                m * m >= x * x,
                m * m >= y * y,
                0 <= m,
                0 < h,
                UNIT_DIAGONAL == 707_106_781_186,
                ONE == 1_000_000_000_000,
        ;
        assert(0 <= UNIT_DIAGONAL * h) by (nonlinear_arith)
            requires
                0 < h,
                UNIT_DIAGONAL == 707_106_781_186,
        ;
        lemma_round_div_at_least(m * ONE, h, UNIT_DIAGONAL as int);
        if mx >= my {
            lemma_round_div_monotone(my * ONE, mx * ONE, h);
        } else {
            lemma_round_div_monotone(mx * ONE, my * ONE, h);
        }
        lemma_quotient_value_of_zero(h);
    } else {
        assert(x == 0 && y == 0) by (nonlinear_arith)
            requires
                n == x * x + y * y,
                n < (h + 1) * (h + 1),
                h == 0,
        ;
    }
}

/// The two rotations are each other's transpose, entry for entry, at every
/// position.
pub proof fn lemma_transform_duality(lla: Geodetic)
    ensures
        ned_to_ecef_value(lla) == ecef_to_ned_value(lla).transpose(),
        ecef_to_ned_value(lla) == ned_to_ecef_value(lla).transpose(),
        ned_to_ecef_value(lla).narrowed() is Ok <==> ecef_to_ned_value(lla).narrowed() is Ok,
{
}

/// Both rotations exist, with every entry between minus one and one,
/// whenever the sines and cosines lie between minus one and one.
pub proof fn lemma_rotations_succeed(lla: Geodetic)
    requires
        lla.bounded(),
    ensures
        ecef_to_ned_value(lla).narrowed() is Ok,
        ned_to_ecef_value(lla).narrowed() is Ok,
        ecef_to_ned_value(lla).within(ONE as int),
        ned_to_ecef_value(lla).within(ONE as int),
{
    lemma_product_value_contracts(lla.lat.sin as int, lla.lon.cos as int);
    lemma_product_value_contracts(lla.lat.sin as int, lla.lon.sin as int);
    lemma_product_value_contracts(lla.lat.cos as int, lla.lon.cos as int);
    lemma_product_value_contracts(lla.lat.cos as int, lla.lon.sin as int);
}

/// The prime vertical radius of curvature exists for every sine between
/// minus one and one, and is at most `MAX_PRIME_VERTICAL`.
pub proof fn lemma_prime_vertical_succeeds(slat: int)
    requires
        -ONE <= slat <= ONE,
    ensures
        prime_vertical_fits(slat),
        A <= prime_vertical_value(slat) <= MAX_PRIME_VERTICAL,
{
    let s2 = product_value(slat, slat);
    lemma_product_value_contracts(slat, slat);
    lemma_product_value_symmetric(slat, slat);
    let e = product_value(E2 as int, s2);
    lemma_product_value_contracts(E2 as int, s2);
    lemma_product_value_symmetric(E2 as int, s2);
    let w = ONE - e;
    let k = 996_647_189_318int;
    assert(k * k <= w * ONE <= ONE * ONE && 0 <= A * ONE <= MAX_PRIME_VERTICAL * k)
        by (nonlinear_arith)
        requires
            k == 996_647_189_318,
            ONE == 1_000_000_000_000,
            993_305_619_977 <= w <= ONE,
            A == 6_378_137_000_000_000_000,
            MAX_PRIME_VERTICAL == 6_400_000_000_000_000_000,
    ;
    lemma_floor_root_between(w * ONE, k, ONE as int);
    let rt = root_value(w);
    assert(A * ONE <= MAX_PRIME_VERTICAL * rt) by (nonlinear_arith)
        requires
            A * ONE <= MAX_PRIME_VERTICAL * k,
            k <= rt,
            MAX_PRIME_VERTICAL == 6_400_000_000_000_000_000,
    ;
    lemma_round_div_range(A * ONE, rt, MAX_PRIME_VERTICAL as int);
    assert(0 <= A * rt <= A * ONE) by (nonlinear_arith)
        requires
            0 <= rt <= ONE,
            A == 6_378_137_000_000_000_000,
    ;
    lemma_round_div_at_least(A * ONE, rt, A as int);
}

/// Every position on the globe up to `MAX_ALTITUDE` has an ECEF position:
/// `lla_to_ecef` succeeds whenever the sines and cosines lie between minus
/// one and one and the altitude is a stored value of at most `MAX_ALTITUDE`.
pub proof fn lemma_lla_to_ecef_succeeds(lla: Geodetic)
    requires
        lla.bounded(),
        -i64::MAX <= lla.alt <= MAX_ALTITUDE,
    ensures
        spec_lla_to_ecef(lla) is Ok,
{
    lemma_prime_vertical_succeeds(lla.lat.sin as int);
    let n = prime_vertical_value(lla.lat.sin as int);
    let rc = product_value(n + lla.alt, lla.lat.cos as int);
    lemma_product_value_contracts(n + lla.alt, lla.lat.cos as int);
    lemma_product_value_contracts(rc, lla.lon.cos as int);
    lemma_product_value_contracts(rc, lla.lon.sin as int);
    lemma_product_value_contracts(n, ONE - E2);
    lemma_product_value_symmetric(n, ONE - E2);
    let polar = product_value(ONE - E2, n);
    lemma_product_value_contracts(polar + lla.alt, lla.lat.sin as int);
}

/// A bounded, unit direction scaled by `k` and rounded stays within
/// `MAX_RADIUS` of the origin.
#[verifier::rlimit(50)]
proof fn lemma_plane_within_reach(k: int, s: int, c: int)
    requires
        -6_450_000_000_000_000_000 <= k <= 6_450_000_000_000_000_000,
        -ONE <= s <= ONE,
        -ONE <= c <= ONE,
        s * s + c * c <= ONE * ONE + 4 * ONE,
    ensures
        product_value(k, c) * product_value(k, c) + product_value(k, s) * product_value(k, s)
            <= MAX_RADIUS * MAX_RADIUS,
{
    let x = magnitude(product_value(k, c));
    let y = magnitude(product_value(k, s));
    let mk = magnitude(k);
    let ms = magnitude(s);
    let mc = magnitude(c);
    lemma_product_value_rounding(k, c);
    lemma_product_value_rounding(k, s);
    let one = ONE as int;
    let half = one / 2;
    assert(one == 1_000_000_000_000 && half == 500_000_000_000);
    let px = mk * mc;
    let py = mk * ms;
    assert(0 <= px && 0 <= py && px + py <= 2 * (mk * one)) by (nonlinear_arith)
        requires
            px == mk * mc,
            py == mk * ms,
            0 <= mk,
            0 <= mc <= one,
            0 <= ms <= one,
    ;
    assert(ms * ms + mc * mc == s * s + c * c) by (nonlinear_arith)
        requires
            ms == magnitude(s),
            mc == magnitude(c),
    ;
    assert(px * px + py * py <= (mk * mk) * (one * one + 4 * one)) by (nonlinear_arith)
        requires
            px == mk * mc,
            py == mk * ms,
            0 <= mk,
            ms * ms + mc * mc <= one * one + 4 * one,
    ;
    assert((x * one) * (x * one) <= (px + half) * (px + half)) by (nonlinear_arith)
        requires
            0 <= x * one <= px + half,
    ;
    assert((y * one) * (y * one) <= (py + half) * (py + half)) by (nonlinear_arith)
        requires
            0 <= y * one <= py + half,
    ;
    assert(0 <= x * one && 0 <= y * one) by (nonlinear_arith)
        requires
            0 <= x,
            0 <= y,
            one == 1_000_000_000_000,
    ;
    assert((px + half) * (px + half) + (py + half) * (py + half) == px * px + py * py + one * (px
        + py) + 2 * (half * half)) by (nonlinear_arith)
        requires
            one == 2 * half,
    ;
    let kk = mk * mk;
    assert(0 <= kk <= 6_450_000_000_000_000_000 * 6_450_000_000_000_000_000) by (nonlinear_arith)
        requires
            kk == mk * mk,
            0 <= mk <= 6_450_000_000_000_000_000,
    ;
    let total = (x * x + y * y) * (one * one);
    assert(total == (x * one) * (x * one) + (y * one) * (y * one)) by (nonlinear_arith)
        requires
            total == (x * x + y * y) * (one * one),
    ;
    assert(total <= kk * (one * one + 4 * one) + one * (2 * (mk * one)) + 2 * (half * half));
    assert(total <= (MAX_RADIUS * MAX_RADIUS) * (one * one)) by (nonlinear_arith)
        requires
            total <= kk * (one * one + 4 * one) + one * (2 * (mk * one)) + 2 * (half * half),
            0 <= kk <= 6_450_000_000_000_000_000 * 6_450_000_000_000_000_000,
            0 <= mk <= 6_450_000_000_000_000_000,
            one == 1_000_000_000_000,
            half == 500_000_000_000,
            MAX_RADIUS == 6_500_000_000_000_000_000,
    ;
    assert(x * x + y * y <= MAX_RADIUS * MAX_RADIUS) by (nonlinear_arith)
        requires
            total == (x * x + y * y) * (one * one),
            total <= (MAX_RADIUS * MAX_RADIUS) * (one * one),
            one == 1_000_000_000_000,
    ;
    assert(x * x == product_value(k, c) * product_value(k, c) && y * y == product_value(k, s)
        * product_value(k, s)) by (nonlinear_arith)
        requires
            x == magnitude(product_value(k, c)),
            y == magnitude(product_value(k, s)),
    ;
}

/// A geodetic position between `ROUND_TRIP_FLOOR` and `ROUND_TRIP_CEILING`
/// with bounded angles and a unit longitude makes the way to ECEF and back:
/// its ECEF position exists and is within reach of `ecef_to_lla`.
pub proof fn lemma_round_trip_exists(lla: Geodetic)
    requires
        lla.bounded(),
        lla.lon.unit(),
        ROUND_TRIP_FLOOR <= lla.alt <= ROUND_TRIP_CEILING,
    ensures
        spec_lla_to_ecef(lla) matches Ok(ecef) && within_reach(ecef) && spec_ecef_to_lla(ecef)
            is Ok,
{
    lemma_lla_to_ecef_succeeds(lla);
    lemma_prime_vertical_succeeds(lla.lat.sin as int);
    let n = prime_vertical_value(lla.lat.sin as int);
    let rc = product_value(n + lla.alt, lla.lat.cos as int);
    lemma_product_value_contracts(n + lla.alt, lla.lat.cos as int);
    lemma_plane_within_reach(rc, lla.lon.sin as int, lla.lon.cos as int);
    lemma_product_value_contracts(n, ONE - E2);
    lemma_product_value_sign(n, ONE - E2);
    lemma_product_value_symmetric(n, ONE - E2);
    let polar = product_value(ONE - E2, n);
    lemma_product_value_contracts(polar + lla.alt, lla.lat.sin as int);
    let ecef = spec_lla_to_ecef(lla)->Ok_0;
    assert(ecef@ == lla_to_ecef_value(lla));
    lemma_ecef_to_lla_succeeds(ecef);
}

/// The length of a unit direction scaled by `k` and rounded is within
/// `2 k / ONE + 3` of `k`.
#[verifier::rlimit(50)]
proof fn lemma_scaled_length(k: int, s: int, c: int)
    requires
        1_000_000_000_000_000 <= k <= 6_450_000_000_000_000_000,
        -ONE <= s <= ONE,
        -ONE <= c <= ONE,
        ONE * ONE - 4 * ONE <= s * s + c * c <= ONE * ONE + 4 * ONE,
    ensures
        k * ONE - 2 * k - 3 * ONE < hypot_value(product_value(k, s), product_value(k, c)) * ONE
            <= k * ONE + 2 * k + ONE,
{
    let one = ONE as int;
    let x = product_value(k, c);
    let y = product_value(k, s);
    let ex = x * one - k * c;
    let ey = y * one - k * s;
    lemma_product_value_error(k, c);
    lemma_product_value_error(k, s);
    assert(one == 1_000_000_000_000);
    let n = x * x + y * y;
    let t = n * (one * one);
    let cross = c * ex + s * ey;
    let sq = ex * ex + ey * ey;
    let n2 = s * s + c * c;
    let kc = k * c;
    let ks = k * s;
    let xo = x * one;
    let yo = y * one;
    assert(t == xo * xo + yo * yo) by (nonlinear_arith)
        requires
            t == (x * x + y * y) * (one * one),
            xo == x * one,
            yo == y * one,
    ;
    assert(xo * xo == kc * kc + 2 * (kc * ex) + ex * ex) by (nonlinear_arith)
        requires
            xo == kc + ex,
    ;
    assert(yo * yo == ks * ks + 2 * (ks * ey) + ey * ey) by (nonlinear_arith)
        requires
            yo == ks + ey,
    ;
    assert(kc * kc == (k * k) * (c * c) && kc * ex == k * (c * ex)) by (nonlinear_arith)
        requires
            kc == k * c,
    ;
    assert(ks * ks == (k * k) * (s * s) && ks * ey == k * (s * ey)) by (nonlinear_arith)
        requires
            ks == k * s,
    ;
    assert((k * k) * n2 == (k * k) * (s * s) + (k * k) * (c * c)) by (nonlinear_arith)
        requires
            n2 == s * s + c * c,
    ;
    assert(k * cross == k * (c * ex) + k * (s * ey)) by (nonlinear_arith)
        requires
            cross == c * ex + s * ey,
    ;
    assert(t == (k * k) * n2 + 2 * (k * cross) + sq);
    assert(-(one * one) <= cross <= one * one) by (nonlinear_arith)
        requires
            cross == c * ex + s * ey,
            -one <= s <= one,
            -one <= c <= one,
            -(one / 2) <= ex <= one / 2,
            -(one / 2) <= ey <= one / 2,
            one == 1_000_000_000_000,
    ;
    assert(0 <= sq <= one * one) by (nonlinear_arith)
        requires
            sq == ex * ex + ey * ey,
            -(one / 2) <= ex <= one / 2,
            -(one / 2) <= ey <= one / 2,
            one == 1_000_000_000_000,
    ;
    let kk = k * k;
    assert(0 <= kk && kk * (one * one - 4 * one) <= kk * n2 <= kk * (one * one + 4 * one))
        by (nonlinear_arith)
        requires
            kk == k * k,
            one * one - 4 * one <= n2 <= one * one + 4 * one,
    ;
    assert(-(2 * (k * (one * one))) <= 2 * (k * cross) <= 2 * (k * (one * one)))
        by (nonlinear_arith)
        requires
            0 <= k,
            -(one * one) <= cross <= one * one,
    ;
    let up = k * one + 2 * k + one;
    let low = k * one - 2 * k - 2 * one;
    assert(t <= up * up && low * low <= t && 0 <= low) by (nonlinear_arith)
        requires
            t == kk * n2 + 2 * (k * cross) + sq,
            kk == k * k,
            kk * (one * one - 4 * one) <= kk * n2 <= kk * (one * one + 4 * one),
            -(2 * (k * (one * one))) <= 2 * (k * cross) <= 2 * (k * (one * one)),
            0 <= sq <= one * one,
            up == k * one + 2 * k + one,
            low == k * one - 2 * k - 2 * one,
            1_000_000_000_000_000 <= k <= 6_450_000_000_000_000_000,
            one == 1_000_000_000_000,
    ;
    assert(0 <= n) by (nonlinear_arith)
        requires
            n == x * x + y * y,
    ;
    lemma_floor_root_exists(n);
    let h = hypot_value(y, x);
    let hh = h * one;
    assert(hh * hh <= t && t < (hh + one) * (hh + one)) by (nonlinear_arith)
        requires
            hh == h * one,
            t == n * (one * one),
            h * h <= n,
            n < (h + 1) * (h + 1),
            0 <= h,
            one == 1_000_000_000_000,
    ;
    assert(hh <= up) by (nonlinear_arith)
        requires
            hh * hh <= t,
            t <= up * up,
            0 <= hh,
            0 <= up,
    ;
    assert(low < hh + one) by (nonlinear_arith)
        requires
            low * low <= t,
            t < (hh + one) * (hh + one),
            0 <= low,
            0 <= hh + one,
    ;
}

/// A unit direction scaled by `k` and rounded has the direction it had, to
/// within three units in the last place of its sine and cosine.
proof fn lemma_scaled_direction(k: int, s: int, c: int)
    requires
        1_000_000_000_000_000 <= k <= 6_450_000_000_000_000_000,
        -ONE <= s <= ONE,
        -ONE <= c <= ONE,
        ONE * ONE - 4 * ONE <= s * s + c * c <= ONE * ONE + 4 * ONE,
    ensures
        hypot_value(product_value(k, s), product_value(k, c)) > 0,
        -3 <= quotient_value(
            product_value(k, s),
            hypot_value(product_value(k, s), product_value(k, c)),
        ) - s <= 3,
        -3 <= quotient_value(
            product_value(k, c),
            hypot_value(product_value(k, s), product_value(k, c)),
        ) - c <= 3,
{
    let one = ONE as int;
    let x = product_value(k, c);
    let y = product_value(k, s);
    let h = hypot_value(y, x);
    let hh = h * one;
    lemma_scaled_length(k, s, c);
    assert(one == 1_000_000_000_000);
    assert(h > 0) by (nonlinear_arith)
        requires
            k * one - 2 * k - 3 * one < h * one,
            1_000_000_000_000_000 <= k,
            one == 1_000_000_000_000,
    ;
    lemma_product_value_error(k, c);
    lemma_product_value_error(k, s);
    lemma_quotient_value_error(y, h);
    lemma_quotient_value_error(x, h);
    lemma_axis_error(k, s, y, h, quotient_value(y, h));
    lemma_axis_error(k, c, x, h, quotient_value(x, h));
}

/// One component of `lemma_scaled_direction`.
#[verifier::rlimit(50)]
proof fn lemma_axis_error(k: int, s: int, y: int, h: int, q: int)
    requires
        1_000_000_000_000_000 <= k <= 6_450_000_000_000_000_000,
        -ONE <= s <= ONE,
        0 < h,
        k * ONE - 2 * k - 3 * ONE < h * ONE <= k * ONE + 2 * k + ONE,
        -(ONE / 2) <= y * ONE - k * s <= ONE / 2,
        -h <= 2 * (q * h - y * ONE) <= h,
    ensures
        -3 <= q - s <= 3,
{
    let one = ONE as int;
    assert(one == 1_000_000_000_000);
    let hh = h * one;
    let eq = q * h - y * one;
    let ey = y * one - k * s;
    let gap = k * one - hh;
    let d = (q - s) * hh;
    let qh = q * h;
    let yo = y * one;
    let ks = k * s;
    let ko = k * one;
    assert(d == q * hh - s * hh) by (nonlinear_arith)
        requires
            d == (q - s) * hh,
    ;
    assert(q * hh == qh * one) by (nonlinear_arith)
        requires
            hh == h * one,
            qh == q * h,
    ;
    assert(eq * one == qh * one - yo * one) by (nonlinear_arith)
        requires
            eq == qh - yo,
    ;
    assert(ey * one == yo * one - ks * one) by (nonlinear_arith)
        requires
            ey == yo - ks,
    ;
    assert(s * gap == s * ko - s * hh) by (nonlinear_arith)
        requires
            gap == ko - hh,
    ;
    assert(s * ko == ks * one) by (nonlinear_arith)
        requires
            ko == k * one,
            ks == k * s,
    ;
    assert(d == eq * one + ey * one + s * gap);
    assert(-hh <= 2 * (eq * one) <= hh) by (nonlinear_arith)
        requires
            -h <= 2 * eq <= h,
            hh == h * one,
            one == 1_000_000_000_000,
    ;
    assert(-(one * one) <= 2 * (ey * one) <= one * one) by (nonlinear_arith)
        requires
            -(one / 2) <= ey <= one / 2,
            one == 1_000_000_000_000,
    ;
    assert(-(one * (2 * k + 3 * one)) <= s * gap <= one * (2 * k + 3 * one)) by (nonlinear_arith)
        requires
            -one <= s <= one,
            -(2 * k + 3 * one) <= gap <= 2 * k + 3 * one,
            0 <= k,
            one == 1_000_000_000_000,
    ;
    assert(one * one + 2 * (one * (2 * k + 3 * one)) <= 5 * hh) by (nonlinear_arith)
        requires
            k * one - 2 * k - 3 * one < hh,
            1_000_000_000_000_000 <= k,
            one == 1_000_000_000_000,
    ;
    assert(-(6 * hh) <= 2 * d <= 6 * hh);
    assert(-3 <= q - s <= 3) by (nonlinear_arith)
        requires
            d == (q - s) * hh,
            -(6 * hh) <= 2 * d <= 6 * hh,
            0 < hh,
    ;
}

/// The longitude comes back from ECEF: for a position between
/// `ROUND_TRIP_FLOOR` and `ROUND_TRIP_CEILING`, at least a kilometre from the
/// polar axis, with bounded angles and a unit longitude, the longitude that
/// `ecef_to_lla` finds for the position that `lla_to_ecef` gives has its
/// sine and its cosine within three units in the last place of those given.
pub proof fn lemma_longitude_round_trip(lla: Geodetic)
    requires
        lla.bounded(),
        lla.lon.unit(),
        ROUND_TRIP_FLOOR <= lla.alt <= ROUND_TRIP_CEILING,
        axis_reach(lla) >= 1_000 * ONE,
    ensures
        spec_lla_to_ecef(lla) matches Ok(ecef) && spec_ecef_to_lla(ecef) matches Ok(back) && {
            &&& -3 <= back.lon.sin - lla.lon.sin <= 3
            &&& -3 <= back.lon.cos - lla.lon.cos <= 3
        },
{
    lemma_round_trip_exists(lla);
    lemma_prime_vertical_succeeds(lla.lat.sin as int);
    let n = prime_vertical_value(lla.lat.sin as int);
    lemma_product_value_contracts(n + lla.alt, lla.lat.cos as int);
    let k = axis_reach(lla);
    lemma_scaled_direction(k, lla.lon.sin as int, lla.lon.cos as int);
    let ecef = spec_lla_to_ecef(lla)->Ok_0;
    assert(ecef@ == lla_to_ecef_value(lla));
    assert(ecef.x == product_value(k, lla.lon.cos as int));
    assert(ecef.y == product_value(k, lla.lon.sin as int));
}

/// The direction of a vector along an axis is that axis': sine one or minus
/// one and cosine zero along the y axis, sine zero and cosine one or minus
/// one along the x axis.
pub proof fn lemma_direction_on_axis(v: i64)
    requires
        v != 0,
        v != i64::MIN,
    ensures
        spec_direction(v, 0) == (Angle { sin: if v < 0 {
            (-ONE) as i64
        } else {
            ONE
        }, cos: 0 }),
        spec_direction(0, v) == (Angle { sin: 0, cos: if v < 0 {
            (-ONE) as i64
        } else {
            ONE
        } }),
        spec_direction(0, 0) == (Angle { sin: 0, cos: ONE }),
{
    let m = magnitude(v as int);
    assert(0 * 0 + v * v == m * m && v * v + 0 * 0 == m * m && m * m < (m + 1) * (m + 1))
        by (nonlinear_arith)
        requires
            m == magnitude(v as int),
    ;
    lemma_floor_root_unique(m * m, m);
    assert(0int * 0int + 0int * 0int == 0);
    lemma_floor_root_unique(0, 0);
    lemma_quotient_value_units(v as int);
    lemma_quotient_value_of_zero(m);
}

/// At the poles the way to ECEF and back is exact: the position lies on the
/// polar axis, and `ecef_to_lla` finds the latitude and the altitude given,
/// with the longitude zero.
pub proof fn lemma_round_trip_at_poles(lla: Geodetic)
    requires
        lla.lat.cos == 0,
        lla.lat.sin == ONE || lla.lat.sin == -ONE,
        lla.lon.bounded(),
        ROUND_TRIP_FLOOR <= lla.alt <= ROUND_TRIP_CEILING,
    ensures
        spec_lla_to_ecef(lla) matches Ok(ecef) && ecef.x == 0 && ecef.y == 0
            && spec_ecef_to_lla(ecef) == Ok::<Geodetic, NavError>(
            Geodetic { lat: lla.lat, lon: Angle { sin: 0, cos: ONE }, alt: lla.alt },
        ),
{
    let s = lla.lat.sin as int;
    lemma_lla_to_ecef_succeeds(lla);
    lemma_prime_vertical_succeeds(s);
    let n = prime_vertical_value(s);
    lemma_product_value_units(n + lla.alt);
    lemma_product_value_units(lla.lon.cos as int);
    lemma_product_value_units(lla.lon.sin as int);
    let polar = product_value(ONE - E2, n);
    assert(6_300_000_000_000_000_000 * ONE <= (ONE - E2) * n) by (nonlinear_arith)
        requires
            n >= 6_378_137_000_000_000_000,
            ONE == 1_000_000_000_000,
            E2 == 6_694_380_023,
    ;
    lemma_round_div_at_least((ONE - E2) * n, ONE as int, 6_300_000_000_000_000_000);
    lemma_product_value_contracts(n, ONE - E2);
    lemma_product_value_symmetric(n, ONE - E2);
    let up = polar + lla.alt;
    lemma_product_value_units(up);
    lemma_product_value_symmetric(up, -ONE);
    lemma_product_value_odd(ONE as int, up);
    let ecef = spec_lla_to_ecef(lla)->Ok_0;
    assert(ecef@ == lla_to_ecef_value(lla));
    assert(ecef.x == 0 && ecef.y == 0);
    assert(ecef.z == if s < 0 {
        -up
    } else {
        up
    });
    lemma_direction_on_axis(ecef.z);
    lemma_product_value_units(AXIS_RATIO as int);
    assert(spec_axis_distance(ecef) == Ok::<i64, NavError>(0));
    let theta = spec_direction(ecef.z, 0);
    assert(spec_auxiliary_angle(0, ecef.z) == Ok::<Angle, NavError>(theta));
    lemma_product_value_units(ONE as int);
    lemma_product_value_units(0);
    lemma_product_value_units(-ONE);
    lemma_product_value_odd(ONE as int, ONE as int);
    lemma_product_value_odd(ONE as int, -ONE);
    lemma_product_value_units(E2_SECOND_B as int);
    lemma_product_value_units(E2_A as int);
    lemma_product_value_symmetric(E2_SECOND_B as int, -ONE);
    lemma_product_value_odd(ONE as int, E2_SECOND_B as int);
    assert(cube_value(theta.sin as int) == theta.sin);
    assert(cube_value(0) == 0);
    let rise = latitude_rise(ecef.z as int, theta);
    assert(rise == if s < 0 {
        -up - E2_SECOND_B
    } else {
        up + E2_SECOND_B
    });
    assert(latitude_run(0, theta) == 0);
    assert(spec_latitude(0, ecef.z, theta) == Ok::<Angle, NavError>(lla.lat));
    lemma_quotient_value_units(ecef.z as int);
    assert(spec_height(0, ecef.z, lla.lat) == Ok::<i64, NavError>(lla.alt));
}

/// On the equator the way to ECEF and back keeps the latitude exactly, the
/// altitude to within thirteen micrometres, and the sine and cosine of a
/// unit longitude to within three units in the last place.
pub proof fn lemma_round_trip_on_equator(lla: Geodetic)
    requires
        lla.lat == (Angle { sin: 0, cos: ONE }),
        lla.lon.bounded(),
        lla.lon.unit(),
        ROUND_TRIP_FLOOR <= lla.alt <= ROUND_TRIP_CEILING,
    ensures
        spec_lla_to_ecef(lla) matches Ok(ecef) && spec_ecef_to_lla(ecef) matches Ok(back) && {
            &&& ecef.z == 0
            &&& back.lat == lla.lat
            &&& -13_000_000 <= back.alt - lla.alt <= 13_000_000
            &&& -3 <= back.lon.sin - lla.lon.sin <= 3
            &&& -3 <= back.lon.cos - lla.lon.cos <= 3
        },
{
    lemma_product_value_units(0);
    lemma_product_value_units(E2 as int);
    lemma_product_value_units(ONE as int);
    assert(ONE * ONE < (ONE + 1) * (ONE + 1)) by (nonlinear_arith);
    lemma_floor_root_unique(ONE * ONE, ONE as int);
    lemma_quotient_value_units(A as int);
    assert(prime_vertical_value(0) == A);
    let k = A + lla.alt;
    lemma_product_value_units(k);
    assert(axis_reach(lla) == k);
    lemma_longitude_round_trip(lla);
    let ecef = spec_lla_to_ecef(lla)->Ok_0;
    let back = spec_ecef_to_lla(ecef)->Ok_0;
    assert(ecef@ == lla_to_ecef_value(lla));
    lemma_product_value_units(product_value(ONE - E2, A as int) + lla.alt);
    assert(ecef.z == 0);
    lemma_scaled_length(k, lla.lon.sin as int, lla.lon.cos as int);
    let p = hypot_value(ecef.y as int, ecef.x as int);
    assert(370_000_000_000_000_000 <= p && -13_000_000 <= p - k <= 13_000_000)
        by (nonlinear_arith)
        requires
            k * ONE - 2 * k - 3 * ONE < p * ONE <= k * ONE + 2 * k + ONE,
            378_137_000_000_000_000 <= k <= 6_450_000_000_000_000_000,
            ONE == 1_000_000_000_000,
    ;
    assert(spec_axis_distance(ecef) == Ok::<i64, NavError>(p as i64));
    assert(100_000_000_000_000_000 * ONE <= p * AXIS_RATIO) by (nonlinear_arith)
        requires
            370_000_000_000_000_000 <= p,
            AXIS_RATIO == 996_647_189_312,
            ONE == 1_000_000_000_000,
    ;
    lemma_round_div_at_least(p * AXIS_RATIO, ONE as int, 100_000_000_000_000_000);
    lemma_product_value_contracts(p, AXIS_RATIO as int);
    let bp = product_value(p, AXIS_RATIO as int) as i64;
    lemma_direction_on_axis(bp);
    let theta = Angle { sin: 0, cos: ONE };
    assert(spec_auxiliary_angle(p as i64, 0) == Ok::<Angle, NavError>(theta));
    lemma_product_value_units(E2_SECOND_B as int);
    lemma_product_value_units(E2_A as int);
    assert(cube_value(0) == 0 && cube_value(ONE as int) == ONE);
    assert(latitude_rise(0, theta) == 0);
    assert(latitude_run(p, theta) == p - E2_A);
    lemma_direction_on_axis((p - E2_A) as i64);
    assert(spec_latitude(p as i64, 0, theta) == Ok::<Angle, NavError>(theta));
    lemma_quotient_value_units(p);
    assert(spec_height(p as i64, 0, theta) == Ok::<i64, NavError>((p - A) as i64));
}

/// The cube of a value between minus one and one lies between them too and
/// has the value's sign.
proof fn lemma_cube_bounds(a: int)
    requires
        -ONE <= a <= ONE,
    ensures
        -ONE <= product_value(a, a) <= ONE,
        -ONE <= cube_value(a) <= ONE,
        a >= 0 ==> cube_value(a) >= 0,
        a <= 0 ==> cube_value(a) <= 0,
{
    lemma_product_value_contracts(a, a);
    lemma_product_value_symmetric(a, a);
    lemma_product_value_contracts(product_value(a, a), a);
    lemma_product_value_sign(product_value(a, a), a);
}

/// The latitude of a position within `MAX_RADIUS` exists, and the numerator
/// of its tangent has the sign of `z`.
proof fn lemma_latitude_succeeds(p: i64, z: i64, theta: Angle)
    requires
        0 <= p <= MAX_RADIUS,
        -MAX_RADIUS <= z <= MAX_RADIUS,
        theta.bounded(),
        z >= 0 ==> theta.sin >= 0,
        z <= 0 ==> theta.sin <= 0,
    ensures
        latitude_fits(p as int, z as int, theta),
        z >= 0 ==> latitude_rise(z as int, theta) >= 0,
        z <= 0 ==> latitude_rise(z as int, theta) <= 0,
{
    let s = theta.sin as int;
    let c = theta.cos as int;
    lemma_cube_bounds(s);
    lemma_cube_bounds(c);
    lemma_product_value_contracts(E2_SECOND_B as int, cube_value(s));
    lemma_product_value_sign(E2_SECOND_B as int, cube_value(s));
    lemma_product_value_contracts(E2_A as int, cube_value(c));
}

/// The height of a position within `MAX_RADIUS` exists, for the latitude
/// of a rise that has the sign of `z`.
proof fn lemma_height_succeeds(p: i64, z: i64, rise: i64, run: i64)
    requires
        0 <= p <= MAX_RADIUS,
        -MAX_RADIUS <= z <= MAX_RADIUS,
        z >= 0 ==> rise >= 0,
        z <= 0 ==> rise <= 0,
    ensures
        height_fits(p as int, z as int, latitude_direction(z, rise, run)),
{
    let lat = latitude_direction(z, rise, run);
    lemma_direction_bounds(rise, run);
    lemma_prime_vertical_succeeds(lat.sin as int);
    let n = prime_vertical_value(lat.sin as int);
    let wide = 9_200_000_000_000_000_000int;
    if uses_equatorial_form(lat) {
        let d = magnitude(lat.cos as int);
        assert(p * ONE <= wide * d) by (nonlinear_arith)
            requires
                0 <= p <= 6_500_000_000_000_000_000,
                d >= 707_106_781_186,
                wide == 9_200_000_000_000_000_000,
                ONE == 1_000_000_000_000,
        ;
        lemma_quotient_value_range(p as int, lat.cos as int, wide);
    } else {
        let d = magnitude(lat.sin as int);
        let mz = magnitude(z as int);
        assert(mz * ONE <= wide * d) by (nonlinear_arith)
            requires
                0 <= mz <= 6_500_000_000_000_000_000,
                d >= 707_106_781_186,
                wide == 9_200_000_000_000_000_000,
                ONE == 1_000_000_000_000,
        ;
        lemma_quotient_value_range(z as int, lat.sin as int, wide);
        lemma_product_value_contracts(n, ONE - E2);
        lemma_product_value_sign(n, ONE - E2);
    }
}

/// Every position within `MAX_RADIUS` of the polar axis and of the
/// equatorial plane has a geodetic position: the poles, the axis and the
/// centre of the Earth included.
pub proof fn lemma_ecef_to_lla_succeeds(ecef: Vector3)
    requires
        within_reach(ecef),
    ensures
        spec_ecef_to_lla(ecef) is Ok,
{
    let n = ecef.x * ecef.x + ecef.y * ecef.y;
    assert(0 <= n) by (nonlinear_arith)
        requires
            n == ecef.x * ecef.x + ecef.y * ecef.y,
    ;
    lemma_floor_root_between(n, 0, MAX_RADIUS as int);
    let p = hypot_value(ecef.y as int, ecef.x as int) as i64;
    lemma_product_value_contracts(p as int, AXIS_RATIO as int);
    lemma_product_value_sign(p as int, AXIS_RATIO as int);
    let bp = product_value(p as int, AXIS_RATIO as int) as i64;
    let theta = spec_direction(ecef.z, bp);
    lemma_direction_bounds(ecef.z, bp);
    lemma_latitude_succeeds(p, ecef.z, theta);
    let rise = latitude_rise(ecef.z as int, theta) as i64;
    let run = latitude_run(p as int, theta) as i64;
    lemma_height_succeeds(p, ecef.z, rise, run);
}

/// The squares of a unit pair, each rounded, add up to one to within five
/// units in the last place.
proof fn lemma_unit_squares(s: int, c: int)
    requires
        ONE * ONE - 4 * ONE <= s * s + c * c <= ONE * ONE + 4 * ONE,
    ensures
        ONE - 5 <= product_value(s, s) + product_value(c, c) <= ONE + 5,
{
    let one = ONE as int;
    assert(one == 1_000_000_000_000);
    lemma_product_value_error(s, s);
    lemma_product_value_error(c, c);
    let t = product_value(s, s) + product_value(c, c);
    assert(t * one == product_value(s, s) * one + product_value(c, c) * one) by (nonlinear_arith)
        requires
            t == product_value(s, s) + product_value(c, c),
    ;
    assert(one * one == 1_000_000_000_000_000_000_000_000) by (nonlinear_arith)
        requires
            one == 1_000_000_000_000,
    ;
}

/// Two ways round to the same triple product differ by at most two units
/// in the last place: `(k c) s` and `(k s) c`, each product rounded.
#[verifier::rlimit(50)]
proof fn lemma_cross_terms_cancel(k: int, s: int, c: int)
    requires
        -ONE <= k <= ONE,
        -ONE <= s <= ONE,
        -ONE <= c <= ONE,
    ensures
        -2 <= product_value(product_value(k, c), s) - product_value(product_value(k, s), c) <= 2,
{
    let one = ONE as int;
    assert(one == 1_000_000_000_000);
    let a = product_value(k, c);
    let b = product_value(k, s);
    let p = product_value(a, s);
    let q = product_value(b, c);
    lemma_product_value_error(k, c);
    lemma_product_value_error(k, s);
    lemma_product_value_error(a, s);
    lemma_product_value_error(b, c);
    let ea = a * one - k * c;
    let eb = b * one - k * s;
    let e1 = p * one - a * s;
    let e2 = q * one - b * c;
    let kc = k * c;
    let ks = k * s;
    let a_s = a * s;
    let b_c = b * c;
    assert(a_s * one == kc * s + ea * s) by (nonlinear_arith)
        requires
            a_s == a * s,
            a * one == kc + ea,
    ;
    assert(b_c * one == ks * c + eb * c) by (nonlinear_arith)
        requires
            b_c == b * c,
            b * one == ks + eb,
    ;
    assert(kc * s == ks * c) by (nonlinear_arith)
        requires
            kc == k * c,
            ks == k * s,
    ;
    assert(-500_000_000_000_000_000_000_000 <= ea * s <= 500_000_000_000_000_000_000_000)
        by (nonlinear_arith)
        requires
            -500_000_000_000 <= ea <= 500_000_000_000,
            -1_000_000_000_000 <= s <= 1_000_000_000_000,
    ;
    assert(-500_000_000_000_000_000_000_000 <= eb * c <= 500_000_000_000_000_000_000_000)
        by (nonlinear_arith)
        requires
            -500_000_000_000 <= eb <= 500_000_000_000,
            -1_000_000_000_000 <= c <= 1_000_000_000_000,
    ;
    let d = a_s - b_c;
    assert(d * one == a_s * one - b_c * one) by (nonlinear_arith)
        requires
            d == a_s - b_c,
    ;
    assert(-one <= d <= one) by (nonlinear_arith)
        requires
            -1_000_000_000_000_000_000_000_000 <= d * one <= 1_000_000_000_000_000_000_000_000,
            one == 1_000_000_000_000,
    ;
    let g = p - q;
    assert(g * one == p * one - q * one) by (nonlinear_arith)
        requires
            g == p - q,
    ;
    assert(-2 <= g <= 2) by (nonlinear_arith)
        requires
            -2 * one <= g * one <= 2 * one,
            one == 1_000_000_000_000,
    ;
}

/// The product of two rounded products, scaled back up: `(a c + ea) (b d +
/// eb)` spelled out.
proof fn lemma_product_of_rounded(x: int, y: int, u: int, v: int, ex: int, ey: int, one: int)
    requires
        x * one == u + ex,
        y * one == v + ey,
    ensures
        (x * y) * (one * one) == u * v + u * ey + v * ex + ex * ey,
{
    let xo = x * one;
    let yo = y * one;
    assert((x * y) * (one * one) == xo * yo) by (nonlinear_arith)
        requires
            xo == x * one,
            yo == y * one,
    ;
    assert(xo * yo == u * v + u * ey + v * ex + ex * ey) by (nonlinear_arith)
        requires
            xo == u + ex,
            yo == v + ey,
    ;
}

/// A product of two values bounded by `p` and `q` is bounded by `p q`.
proof fn lemma_bounded_product(x: int, y: int, p: int, q: int)
    requires
        -p <= x <= p,
        -q <= y <= q,
    ensures
        -(p * q) <= x * y <= p * q,
{
    assert(-(p * q) <= x * y <= p * q) by (nonlinear_arith)
        requires
            -p <= x <= p,
            -q <= y <= q,
    ;
}

/// The squares of the two rounded products of `k` with a unit pair, each
/// rounded, add up to the square of `k` to within eight units in the last
/// place.
#[verifier::rlimit(50)]
proof fn lemma_scaled_squares(k: int, s: int, c: int)
    requires
        -ONE <= k <= ONE,
        -ONE <= s <= ONE,
        -ONE <= c <= ONE,
        ONE * ONE - 4 * ONE <= s * s + c * c <= ONE * ONE + 4 * ONE,
    ensures
        -8 * ONE <= (product_value(product_value(k, c), product_value(k, c)) + product_value(
            product_value(k, s),
            product_value(k, s),
        )) * ONE - k * k <= 8 * ONE,
{
    let one = ONE as int;
    let h = 500_000_000_000int;
    assert(one == 1_000_000_000_000);
    let x = product_value(k, c);
    let y = product_value(k, s);
    lemma_product_value_error(k, c);
    lemma_product_value_error(k, s);
    lemma_product_value_error(x, x);
    lemma_product_value_error(y, y);
    let kc = k * c;
    let ks = k * s;
    let ex = x * one - kc;
    let ey = y * one - ks;
    let e1 = product_value(x, x) * one - x * x;
    let e2 = product_value(y, y) * one - y * y;
    let oo = one * one;
    assert(oo == 1_000_000_000_000_000_000_000_000) by (nonlinear_arith)
        requires
            oo == one * one,
            one == 1_000_000_000_000,
    ;
    lemma_product_of_rounded(x, x, kc, kc, ex, ex, one);
    lemma_product_of_rounded(y, y, ks, ks, ey, ey, one);
    let kk = k * k;
    let n2 = s * s + c * c;
    assert(kc * kc + ks * ks == kk * n2) by (nonlinear_arith)
        requires
            kc == k * c,
            ks == k * s,
            kk == k * k,
            n2 == s * s + c * c,
    ;
    lemma_bounded_product(k, c, one, one);
    lemma_bounded_product(k, s, one, one);
    lemma_bounded_product(kc, ex, oo, h);
    lemma_bounded_product(ks, ey, oo, h);
    lemma_bounded_product(ex, ex, h, h);
    lemma_bounded_product(ey, ey, h, h);
    lemma_bounded_product(k, k, one, one);
    let delta = n2 - oo;
    lemma_bounded_product(kk, delta, oo, 4 * one);
    assert(kk * n2 == kk * oo + kk * delta) by (nonlinear_arith)
        requires
            n2 == oo + delta,
    ;
    let ooo = oo * one;
    assert(ooo == 1_000_000_000_000_000_000_000_000_000_000_000_000 && oo * h
        == 500_000_000_000_000_000_000_000_000_000_000_000 && oo * (4 * one) == 4 * ooo && h
        * h == 250_000_000_000_000_000_000_000) by (nonlinear_arith)
        requires
            ooo == oo * one,
            oo == 1_000_000_000_000_000_000_000_000,
            one == 1_000_000_000_000,
            h == 500_000_000_000,
    ;
    let w = (x * x + y * y) * oo;
    assert(w == (x * x) * oo + (y * y) * oo) by (nonlinear_arith)
        requires
            w == (x * x + y * y) * oo,
    ;
    assert(-(7 * ooo) <= w - kk * oo <= 7 * ooo);
    let t = product_value(x, x) + product_value(y, y);
    let u = t * one;
    assert(u == x * x + y * y + e1 + e2) by (nonlinear_arith)
        requires
            u == t * one,
            t == product_value(x, x) + product_value(y, y),
            e1 == product_value(x, x) * one - x * x,
            e2 == product_value(y, y) * one - y * y,
    ;
    let g = u - kk;
    assert(g * oo == w - kk * oo + (e1 + e2) * oo) by (nonlinear_arith)
        requires
            g == x * x + y * y + e1 + e2 - kk,
            w == (x * x + y * y) * oo,
    ;
    lemma_bounded_product(e1 + e2, oo, one, oo);
    assert(-(8 * one) <= g <= 8 * one) by (nonlinear_arith)
        requires
            -(8 * ooo) <= g * oo <= 8 * ooo,
            ooo == oo * one,
            oo == 1_000_000_000_000_000_000_000_000,
            one == 1_000_000_000_000,
    ;
}

/// For a unit pair `(s, c)`, the rounded `(a c)(b c) + (a s)(b s)` is the
/// rounded `a b` to within nine units in the last place.
#[verifier::rlimit(50)]
proof fn lemma_mixed_products(a: int, b: int, s: int, c: int)
    requires
        -ONE <= a <= ONE,
        -ONE <= b <= ONE,
        -ONE <= s <= ONE,
        -ONE <= c <= ONE,
        ONE * ONE - 4 * ONE <= s * s + c * c <= ONE * ONE + 4 * ONE,
    ensures
        -9 <= product_value(product_value(a, c), product_value(b, c)) + product_value(
            product_value(a, s),
            product_value(b, s),
        ) - product_value(a, b) <= 9,
{
    let one = ONE as int;
    let h = 500_000_000_000int;
    assert(one == 1_000_000_000_000);
    let x = product_value(a, c);
    let y = product_value(a, s);
    let z = product_value(b, c);
    let w = product_value(b, s);
    lemma_product_value_error(a, c);
    lemma_product_value_error(a, s);
    lemma_product_value_error(b, c);
    lemma_product_value_error(b, s);
    lemma_product_value_error(x, z);
    lemma_product_value_error(y, w);
    lemma_product_value_error(a, b);
    let ac = a * c;
    let a_s = a * s;
    let bc = b * c;
    let bs = b * s;
    let ab = a * b;
    let ex = x * one - ac;
    let ey = y * one - a_s;
    let ez = z * one - bc;
    let ew = w * one - bs;
    let e1 = product_value(x, z) * one - x * z;
    let e2 = product_value(y, w) * one - y * w;
    let e3 = product_value(a, b) * one - ab;
    let oo = one * one;
    let ooo = oo * one;
    assert(oo == 1_000_000_000_000_000_000_000_000 && ooo
        == 1_000_000_000_000_000_000_000_000_000_000_000_000 && oo * h
        == 500_000_000_000_000_000_000_000_000_000_000_000 && oo * (4 * one) == 4 * ooo && h
        * h == 250_000_000_000_000_000_000_000) by (nonlinear_arith)
        requires
            oo == one * one,
            ooo == oo * one,
            one == 1_000_000_000_000,
            h == 500_000_000_000,
    ;
    lemma_product_of_rounded(x, z, ac, bc, ex, ez, one);
    lemma_product_of_rounded(y, w, a_s, bs, ey, ew, one);
    let n2 = s * s + c * c;
    assert(ac * bc + a_s * bs == ab * n2) by (nonlinear_arith)
        requires
            ac == a * c,
            bc == b * c,
            a_s == a * s,
            bs == b * s,
            ab == a * b,
            n2 == s * s + c * c,
    ;
    lemma_bounded_product(a, c, one, one);
    lemma_bounded_product(a, s, one, one);
    lemma_bounded_product(b, c, one, one);
    lemma_bounded_product(b, s, one, one);
    lemma_bounded_product(a, b, one, one);
    lemma_bounded_product(ac, ez, oo, h);
    lemma_bounded_product(bc, ex, oo, h);
    lemma_bounded_product(a_s, ew, oo, h);
    lemma_bounded_product(bs, ey, oo, h);
    lemma_bounded_product(ex, ez, h, h);
    lemma_bounded_product(ey, ew, h, h);
    let delta = n2 - oo;
    lemma_bounded_product(ab, delta, oo, 4 * one);
    assert(ab * n2 == ab * oo + ab * delta) by (nonlinear_arith)
        requires
            n2 == oo + delta,
    ;
    let q = (x * z + y * w) * oo;
    assert(q == (x * z) * oo + (y * w) * oo) by (nonlinear_arith)
        requires
            q == (x * z + y * w) * oo,
    ;
    assert(-(7 * ooo) <= q - ab * oo <= 7 * ooo);
    let g = product_value(x, z) + product_value(y, w) - product_value(a, b);
    let u = g * one;
    assert(u == x * z + y * w - ab + e1 + e2 - e3) by (nonlinear_arith)
        requires
            u == g * one,
            g == product_value(x, z) + product_value(y, w) - product_value(a, b),
            e1 == product_value(x, z) * one - x * z,
            e2 == product_value(y, w) * one - y * w,
            e3 == product_value(a, b) * one - ab,
    ;
    assert(u * oo == q - ab * oo + (e1 + e2 - e3) * oo) by (nonlinear_arith)
        requires
            u == x * z + y * w - ab + e1 + e2 - e3,
            q == (x * z + y * w) * oo,
    ;
    lemma_bounded_product(e1 + e2 - e3, oo, 3 * h, oo);
    assert((3 * h) * oo == 1_500_000_000_000_000_000_000_000_000_000_000_000)
        by (nonlinear_arith)
        requires
            oo == 1_000_000_000_000_000_000_000_000,
            h == 500_000_000_000,
    ;
    assert(-(9 * ooo) <= u * oo <= 9 * ooo);
    assert(-(9 * one) <= u <= 9 * one) by (nonlinear_arith)
        requires
            -(9 * ooo) <= u * oo <= 9 * ooo,
            ooo == oo * one,
            oo == 1_000_000_000_000_000_000_000_000,
            one == 1_000_000_000_000,
    ;
    assert(-9 <= g <= 9) by (nonlinear_arith)
        requires
            u == g * one,
            -(9 * one) <= u <= 9 * one,
            one == 1_000_000_000_000,
    ;
}

/// The rotation from ECEF to north-east-down is orthonormal as far as
/// stored values go: for the sine and cosine of a latitude and of a
/// longitude, every entry of `M M^T - I` is at most thirteen units in the
/// last place.
#[verifier::rlimit(50)]
pub proof fn lemma_ecef_to_ned_is_orthonormal(lla: Geodetic)
    requires
        lla.lat.valid(),
        lla.lon.valid(),
    ensures
        ecef_to_ned_value(lla).orthonormal_within(13),
{
    let a = lla.lat.sin as int;
    let b = lla.lat.cos as int;
    let s = lla.lon.sin as int;
    let c = lla.lon.cos as int;
    let ac = product_value(a, c);
    let a_s = product_value(a, s);
    let bc = product_value(b, c);
    let bs = product_value(b, s);
    lemma_scaled_squares(a, s, c);
    lemma_scaled_squares(b, s, c);
    lemma_unit_squares(s, c);
    lemma_cross_terms_cancel(a, s, c);
    lemma_cross_terms_cancel(b, s, c);
    lemma_mixed_products(a, b, s, c);
    lemma_product_value_error(a, a);
    lemma_product_value_error(b, b);
    lemma_product_value_symmetric(a, b);
    lemma_product_value_negations(ac, ac);
    lemma_product_value_negations(a_s, a_s);
    lemma_product_value_negations(bc, bc);
    lemma_product_value_negations(bs, bs);
    lemma_product_value_negations(a, a);
    lemma_product_value_negations(s, s);
    lemma_product_value_negations(ac, s);
    lemma_product_value_negations(a_s, c);
    lemma_product_value_negations(ac, bc);
    lemma_product_value_negations(a_s, bs);
    lemma_product_value_negations(b, a);
    lemma_product_value_negations(a, b);
    lemma_product_value_negations(s, bc);
    lemma_product_value_negations(c, bs);
    lemma_product_value_negations(s, ac);
    lemma_product_value_negations(c, a_s);
    lemma_product_value_negations(bc, ac);
    lemma_product_value_negations(bs, a_s);
    lemma_product_value_negations(bc, s);
    lemma_product_value_negations(bs, c);
    lemma_product_value_symmetric(s, bc);
    lemma_product_value_symmetric(c, bs);
    lemma_product_value_symmetric(s, ac);
    lemma_product_value_symmetric(c, a_s);
    lemma_product_value_symmetric(bc, ac);
    lemma_product_value_symmetric(bs, a_s);
    lemma_product_value_units(a);
    lemma_product_value_units(b);
    lemma_product_value_units(0);
    lemma_product_value_units(-a);
    let one = ONE as int;
    assert(one == 1_000_000_000_000);
    let upper = product_value(ac, ac) + product_value(a_s, a_s) + product_value(b, b);
    let lower = product_value(bc, bc) + product_value(bs, bs) + product_value(a, a);
    assert(-12 <= upper - one <= 12 && -12 <= lower - one <= 12) by (nonlinear_arith)
        requires
            -8 * one <= (product_value(ac, ac) + product_value(a_s, a_s)) * one - a * a <= 8 * one,
            -8 * one <= (product_value(bc, bc) + product_value(bs, bs)) * one - b * b <= 8 * one,
            -(one / 2) <= product_value(a, a) * one - a * a <= one / 2,
            -(one / 2) <= product_value(b, b) * one - b * b <= one / 2,
            one * one - 4 * one <= a * a + b * b <= one * one + 4 * one,
            upper == product_value(ac, ac) + product_value(a_s, a_s) + product_value(b, b),
            lower == product_value(bc, bc) + product_value(bs, bs) + product_value(a, a),
            one == 1_000_000_000_000,
    ;
}

/// The rotation from north-east-down to ECEF is orthonormal as far as
/// stored values go: for the sine and cosine of a latitude and of a
/// longitude, every entry of `M M^T - I` is at most thirteen units in the
/// last place.
#[verifier::rlimit(50)]
pub proof fn lemma_ned_to_ecef_is_orthonormal(lla: Geodetic)
    requires
        lla.lat.valid(),
        lla.lon.valid(),
    ensures
        ned_to_ecef_value(lla).orthonormal_within(13),
{
    let a = lla.lat.sin as int;
    let b = lla.lat.cos as int;
    let s = lla.lon.sin as int;
    let c = lla.lon.cos as int;
    let ac = product_value(a, c);
    let a_s = product_value(a, s);
    let bc = product_value(b, c);
    let bs = product_value(b, s);
    lemma_product_value_symmetric(a, c);
    lemma_product_value_symmetric(a, s);
    lemma_product_value_symmetric(b, c);
    lemma_product_value_symmetric(b, s);
    lemma_product_value_symmetric(c, s);
    lemma_scaled_squares(c, a, b);
    lemma_scaled_squares(s, a, b);
    lemma_unit_squares(a, b);
    lemma_cross_terms_cancel(c, a, b);
    lemma_cross_terms_cancel(s, a, b);
    lemma_mixed_products(c, s, b, a);
    lemma_product_value_error(s, s);
    lemma_product_value_error(c, c);
    lemma_product_value_negations(ac, ac);
    lemma_product_value_negations(a_s, a_s);
    lemma_product_value_negations(bc, bc);
    lemma_product_value_negations(bs, bs);
    lemma_product_value_negations(a, a);
    lemma_product_value_negations(s, s);
    lemma_product_value_negations(ac, a_s);
    lemma_product_value_negations(a_s, ac);
    lemma_product_value_negations(bc, bs);
    lemma_product_value_negations(bs, bc);
    lemma_product_value_negations(s, c);
    lemma_product_value_negations(c, s);
    lemma_product_value_negations(ac, b);
    lemma_product_value_negations(b, ac);
    lemma_product_value_negations(bc, a);
    lemma_product_value_negations(a, bc);
    lemma_product_value_negations(a_s, b);
    lemma_product_value_negations(b, a_s);
    lemma_product_value_negations(bs, a);
    lemma_product_value_negations(a, bs);
    lemma_product_value_symmetric(a_s, ac);
    lemma_product_value_symmetric(bs, bc);
    lemma_product_value_symmetric(b, ac);
    lemma_product_value_symmetric(a, bc);
    lemma_product_value_symmetric(b, a_s);
    lemma_product_value_symmetric(a, bs);
    lemma_product_value_units(s);
    lemma_product_value_units(c);
    lemma_product_value_units(0);
    lemma_product_value_units(-s);
    let one = ONE as int;
    assert(one == 1_000_000_000_000);
    let upper = product_value(ac, ac) + product_value(s, s) + product_value(bc, bc);
    let lower = product_value(a_s, a_s) + product_value(c, c) + product_value(bs, bs);
    assert(-12 <= upper - one <= 12 && -12 <= lower - one <= 12) by (nonlinear_arith)
        requires
            -8 * one <= (product_value(bc, bc) + product_value(ac, ac)) * one - c * c <= 8 * one,
            -8 * one <= (product_value(bs, bs) + product_value(a_s, a_s)) * one - s * s <= 8 * one,
            -(one / 2) <= product_value(s, s) * one - s * s <= one / 2,
            -(one / 2) <= product_value(c, c) * one - c * c <= one / 2,
            one * one - 4 * one <= s * s + c * c <= one * one + 4 * one,
            upper == product_value(ac, ac) + product_value(s, s) + product_value(bc, bc),
            lower == product_value(a_s, a_s) + product_value(c, c) + product_value(bs, bs),
            one == 1_000_000_000_000,
    ;
}

} // verus!
