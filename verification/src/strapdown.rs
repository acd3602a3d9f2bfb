//! The strapdown integrator.
//!
//! One step takes the state integrated through time `t` and an IMU sample
//! with a later timestamp to the state integrated through the sample's time.
//! The attitude follows the exact rotation of a constant body rate
//! (Rodrigues' formula); velocity and position follow the trapezoidal rule.
use crate::constants::GEQ;
use crate::constants::HALF;
use crate::constants::OMEGA_EARTH;
use crate::fixed::checked;
use crate::fixed::difference;
use crate::fixed::lemma_product_value_contracts;
use crate::fixed::lemma_product_value_symmetric;
use crate::fixed::lemma_floor_root_unique;
use crate::fixed::lemma_product_value_units;
use crate::fixed::lemma_round_div_exact;
use crate::fixed::lemma_quotient_value_of_zero;
use crate::fixed::magnitude;
use crate::fixed::product;
use crate::fixed::product_value;
use crate::fixed::representable;
use crate::fixed::ONE;
use crate::linalg::lemma_matrix_scaled_within;
use crate::linalg::lemma_norm_dominates;
use crate::linalg::lemma_norm_within;
use crate::linalg::lemma_over_within;
use crate::linalg::lemma_scaled_within;
use crate::linalg::lemma_times_identity;
use crate::linalg::lemma_times_vec_within;
use crate::linalg::lemma_times_within;
use crate::linalg::lemma_unit_within;
use crate::linalg::Mat3;
use crate::linalg::Matrix3;
use crate::linalg::Vec3;
use crate::linalg::Vector3;
use crate::math::skew;
use crate::math::skew_value;
use crate::types::interval;
use crate::types::spec_interval;
use crate::types::Angle;
use crate::types::ImuMeasurement;
use crate::types::NavError;
use crate::types::NavState;
use crate::types::UNITS_PER_TICK;
use vstd::prelude::*;

verus! {

/// A body rate below this (rad/s) is integrated by the small-angle series,
/// which needs no division by the rate.
pub const RATE_EPSILON: i64 = 1_000_000;

/// Strapdown state: a navigation state at a given time.
///
/// * `t` - timestamp, nanoseconds since the UTC epoch
/// * `nav_state` - the ECEF position, velocity and attitude
/// * `nav_state_prev` - the same at the previous step
/// * `v_dot_prev` - rate of change of the ECEF velocity at the previous step
#[derive(Debug, Clone, Copy, PartialEq, Eq, Structural)]
pub struct Strapdown {
    pub t: i64,
    pub nav_state: NavState,
    pub nav_state_prev: NavState,
    pub v_dot_prev: Vector3,
}

impl Default for Strapdown {
    /// At time zero in the default navigation state.
    fn default() -> (r: Strapdown)
        ensures
            r == Strapdown::spec_origin(),
    {
        Strapdown::new(0, NavState::default())
    }
}

/// The Earth's rotation vector in ECEF, `(0, 0, OMEGA_EARTH)`.
pub open spec fn earth_rate() -> Vec3 {
    Vec3 { x: 0, y: 0, z: OMEGA_EARTH as int }
}

/// The body's rate with respect to inertial space, in body axes:
/// `d_theta / dt`.
pub open spec fn inertial_rate_value(d_theta: Vec3, dt: int) -> Vec3 {
    d_theta.over(dt)
}

/// The Earth's rotation as seen in body axes: `R^T w_ie`.
pub open spec fn earth_rate_in_body(r: Mat3) -> Vec3 {
    r.transpose().times_vec(earth_rate())
}

/// The body's rate with respect to ECEF, in body axes:
/// `d_theta / dt - R^T w_ie`.
pub open spec fn body_rate_value(r: Mat3, d_theta: Vec3, dt: int) -> Vec3 {
    inertial_rate_value(d_theta, dt).minus(earth_rate_in_body(r))
}

/// The body rate as stored values, or the error: out of range when `dt` is
/// zero or an intermediate value cannot be stored.
pub open spec fn spec_body_rate(r: Matrix3, d_theta: Vector3, dt: i64) -> Result<
    Vector3,
    NavError,
> {
    if dt != 0 && inertial_rate_value(d_theta@, dt as int).fits() && earth_rate_in_body(r@).fits()
        && body_rate_value(r@, d_theta@, dt as int).fits() {
        Ok(body_rate_value(r@, d_theta@, dt as int).narrow())
    } else {
        Err(NavError::OutOfRange)
    }
}

/// The body's rate with respect to ECEF, in body axes.
pub fn body_rate(r: &Matrix3, d_theta: &Vector3, dt: i64) -> (res: Result<Vector3, NavError>)
    ensures
        res == spec_body_rate(*r, *d_theta, dt),
{
    let inertial: Vector3 = d_theta.over(dt)?;
    let earth: Vector3 = r.transpose().times_vec(&Vector3::new(0, 0, OMEGA_EARTH))?;
    inertial.minus(&earth)
}

/// The angle turned through in `dt` at the given rate: `|rate| dt`.
pub open spec fn spec_rotation_angle(rate: Vector3, dt: i64) -> Result<i64, NavError> {
    if representable(rate@.norm()) {
        checked(product_value(rate@.norm(), dt as int))
    } else {
        Err(NavError::OutOfRange)
    }
}

/// The angle (rad) turned through in `dt` at the given rate.
pub fn rotation_angle(rate: &Vector3, dt: i64) -> (r: Result<i64, NavError>)
    ensures
        r == spec_rotation_angle(*rate, dt),
{
    let n: i64 = rate.norm()?;
    product(n, dt)
}

/// Whether a rate is integrated by the small-angle series.
pub open spec fn is_small_rate(rate: Vec3) -> bool {
    rate.norm() < RATE_EPSILON
}

/// The generator of the step's rotation: the skew matrix of the rotation
/// vector `rate dt` for a small rate, else of the unit axis `rate / |rate|`.
pub open spec fn generator_value(rate: Vec3, dt: int) -> Mat3 {
    if is_small_rate(rate) {
        skew_value(rate.scaled(dt))
    } else {
        skew_value(rate.over(rate.norm()))
    }
}

/// The coefficient of the generator in the rotation: one for a small rate,
/// else the sine of the angle.
pub open spec fn first_coefficient(rate: Vec3, rotation: Angle) -> int {
    if is_small_rate(rate) {
        ONE as int
    } else {
        rotation.sin as int
    }
}

/// The coefficient of the generator's square in the rotation: one half for a
/// small rate, else one minus the cosine of the angle.
pub open spec fn second_coefficient(rate: Vec3, rotation: Angle) -> int {
    if is_small_rate(rate) {
        HALF as int
    } else {
        ONE - rotation.cos
    }
}

/// The rotation over the step, from the body at its end to the body at its
/// start: `I + sin(a) K + (1 - cos(a)) K^2` for the unit axis' skew matrix
/// `K` and the angle `a`, and `I + K + K^2 / 2` with the rotation vector's
/// skew matrix `K` for a small rate.
pub open spec fn increment_value(rate: Vec3, dt: int, rotation: Angle) -> Mat3 {
    let k = generator_value(rate, dt);
    Mat3::identity().plus(k.scaled(first_coefficient(rate, rotation))).plus(
        k.times(k).scaled(second_coefficient(rate, rotation)),
    )
}

/// Whether every intermediate value of the increment can be stored.
pub open spec fn increment_fits(rate: Vec3, dt: int, rotation: Angle) -> bool {
    let k = generator_value(rate, dt);
    let a = first_coefficient(rate, rotation);
    let b = second_coefficient(rate, rotation);
    &&& representable(rate.norm())
    &&& if is_small_rate(rate) {
        rate.scaled(dt).fits()
    } else {
        rate.over(rate.norm()).fits()
    }
    &&& k.fits()
    &&& representable(b)
    &&& k.scaled(a).fits()
    &&& k.times(k).fits()
    &&& k.times(k).scaled(b).fits()
    &&& Mat3::identity().plus(k.scaled(a)).fits()
    &&& increment_value(rate, dt, rotation).fits()
}

/// The rotation over the step, or the error: an invalid rotation when the
/// sine and cosine passed belong to no angle, else out of range when a
/// value cannot be stored.
pub open spec fn spec_increment(rate: Vector3, dt: i64, rotation: Angle) -> Result<
    Matrix3,
    NavError,
> {
    if !rotation.valid() {
        Err(NavError::InvalidRotation)
    } else if increment_fits(rate@, dt as int, rotation) {
        Ok(increment_value(rate@, dt as int, rotation).narrow())
    } else {
        Err(NavError::OutOfRange)
    }
}

/// The rotation over a step of `dt` at the body rate `rate`.
///
/// `rotation` holds the sine and cosine of `rotation_angle(rate, dt)`. A
/// pair that belongs to no angle is an invalid rotation, whatever the rate;
/// for a rate below `RATE_EPSILON` the pair is checked and not used.
pub fn attitude_increment(rate: &Vector3, dt: i64, rotation: &Angle) -> (r: Result<
    Matrix3,
    NavError,
>)
    ensures
        r == spec_increment(*rate, dt, *rotation),
        r == Err::<Matrix3, NavError>(NavError::InvalidRotation) <==> !rotation.valid(),
{
    if !rotation.is_valid() {
        return Err(NavError::InvalidRotation);
    }
    let n: i64 = rate.norm()?;
    let k: Matrix3;
    let a: i64;
    let b: i64;
    if n < RATE_EPSILON {
        k = skew(&rate.scaled(dt)?)?;
        a = ONE;
        b = HALF;
    } else {
        k = skew(&rate.over(n)?)?;
        a = rotation.sin;
        b = difference(ONE, rotation.cos)?;
    }
    let first: Matrix3 = k.scaled(a)?;
    let second: Matrix3 = k.times(&k)?.scaled(b)?;
    Matrix3::identity().plus(&first)?.plus(&second)
}

/// The attitude after the step, `R dR`, or the error.
pub open spec fn spec_attitude(r: Matrix3, d_theta: Vector3, dt: i64, rotation: Angle) -> Result<
    Matrix3,
    NavError,
> {
    match spec_body_rate(r, d_theta, dt) {
        Ok(rate) => match spec_increment(rate, dt, rotation) {
            Ok(increment) => r@.times(increment@).narrowed(),
            Err(e) => Err(e),
        },
        Err(e) => Err(e),
    }
}

/// The attitude after the step, with the rotation's validity looked at
/// before anything is computed.
pub open spec fn spec_checked_attitude(
    r: Matrix3,
    d_theta: Vector3,
    dt: i64,
    rotation: Angle,
) -> Result<Matrix3, NavError> {
    if !rotation.valid() {
        Err(NavError::InvalidRotation)
    } else {
        spec_attitude(r, d_theta, dt, rotation)
    }
}

/// The body-to-ECEF attitude after a step of `dt` in which the gyroscopes
/// measured `d_theta`.
pub fn attitude_update(r: &Matrix3, d_theta: &Vector3, dt: i64, rotation: &Angle) -> (res: Result<
    Matrix3,
    NavError,
>)
    ensures
        res == spec_attitude(*r, *d_theta, dt, *rotation),
{
    let rate: Vector3 = body_rate(r, d_theta, dt)?;
    let increment: Matrix3 = attitude_increment(&rate, dt, rotation)?;
    r.times(&increment)
}

/// Half the step, `0.5 dt`.
pub open spec fn half_step(dt: int) -> int {
    product_value(HALF as int, dt)
}

/// The trapezoidal rule: `x + 0.5 dt (a + b)`.
pub open spec fn trapezoid_value(x: Vec3, a: Vec3, b: Vec3, dt: int) -> Vec3 {
    x.plus(a.plus(b).scaled(half_step(dt)))
}

/// The trapezoidal rule on stored values, or the error.
pub open spec fn spec_trapezoid(x: Vector3, a: Vector3, b: Vector3, dt: i64) -> Result<
    Vector3,
    NavError,
> {
    if representable(half_step(dt as int)) && a@.plus(b@).fits() && a@.plus(b@).scaled(
        half_step(dt as int),
    ).fits() && trapezoid_value(x@, a@, b@, dt as int).fits() {
        Ok(trapezoid_value(x@, a@, b@, dt as int).narrow())
    } else {
        Err(NavError::OutOfRange)
    }
}

/// Integrates a rate that went from `a` to `b` over `dt`, starting at `x`.
pub fn trapezoid(x: &Vector3, a: &Vector3, b: &Vector3, dt: i64) -> (r: Result<Vector3, NavError>)
    ensures
        r == spec_trapezoid(*x, *a, *b, dt),
{
    let h: i64 = product(HALF, dt)?;
    let area: Vector3 = a.plus(b)?.scaled(h)?;
    x.plus(&area)
}

/// The skew matrix of the Earth's rotation vector.
pub open spec fn earth_rate_matrix() -> Mat3 {
    skew_value(earth_rate())
}

/// The velocity predicted for the end of the step: `v + a_prev dt`.
pub open spec fn predicted_velocity(v: Vec3, a_prev: Vec3, dt: int) -> Vec3 {
    v.plus(a_prev.scaled(dt))
}

/// The Coriolis term `-2 W v_pred`, `W` the Earth rate's skew matrix.
pub open spec fn coriolis_value(v_pred: Vec3) -> Vec3 {
    earth_rate_matrix().times_vec(v_pred).scaled(-2 * ONE)
}

/// The step's mean displacement `0.5 dt (v + v_pred)`.
pub open spec fn mean_displacement(v: Vec3, v_pred: Vec3, dt: int) -> Vec3 {
    v.plus(v_pred).scaled(half_step(dt))
}

/// The centrifugal term `-W (W d)` of the mean displacement `d`.
pub open spec fn centrifugal_value(d: Vec3) -> Vec3 {
    earth_rate_matrix().times_vec(earth_rate_matrix().times_vec(d)).negated()
}

/// The specific force in ECEF, `R (d_v / dt)`.
pub open spec fn specific_force_value(r: Mat3, d_v: Vec3, dt: int) -> Vec3 {
    r.times_vec(d_v.over(dt))
}

/// The rate of change of velocity at the end of the step: Coriolis plus
/// centrifugal plus specific force plus gravity.
pub open spec fn acceleration_value(
    v: Vec3,
    a_prev: Vec3,
    r: Mat3,
    d_v: Vec3,
    dt: int,
    gravity: Vec3,
) -> Vec3 {
    let v_pred = predicted_velocity(v, a_prev, dt);
    coriolis_value(v_pred).plus(centrifugal_value(mean_displacement(v, v_pred, dt))).plus(
        specific_force_value(r, d_v, dt),
    ).plus(gravity)
}

/// Whether every intermediate value of the acceleration can be stored.
pub open spec fn acceleration_fits(
    v: Vec3,
    a_prev: Vec3,
    r: Mat3,
    d_v: Vec3,
    dt: int,
    gravity: Vec3,
) -> bool {
    let w = earth_rate_matrix();
    let v_pred = predicted_velocity(v, a_prev, dt);
    let d = mean_displacement(v, v_pred, dt);
    let cor = coriolis_value(v_pred);
    let cen = centrifugal_value(d);
    let f = specific_force_value(r, d_v, dt);
    &&& dt != 0
    &&& a_prev.scaled(dt).fits()
    &&& v_pred.fits()
    &&& w.times_vec(v_pred).fits()
    &&& cor.fits()
    &&& representable(half_step(dt))
    &&& v.plus(v_pred).fits()
    &&& d.fits()
    &&& w.times_vec(d).fits()
    &&& w.times_vec(w.times_vec(d)).fits()
    &&& cen.fits()
    &&& d_v.over(dt).fits()
    &&& f.fits()
    &&& cor.plus(cen).fits()
    &&& cor.plus(cen).plus(f).fits()
    &&& acceleration_value(v, a_prev, r, d_v, dt, gravity).fits()
}

/// The rate of change of velocity at the end of the step, or the error.
pub open spec fn spec_acceleration(
    v: Vector3,
    a_prev: Vector3,
    r: Matrix3,
    d_v: Vector3,
    dt: i64,
    gravity: Vector3,
) -> Result<Vector3, NavError> {
    if acceleration_fits(v@, a_prev@, r@, d_v@, dt as int, gravity@) {
        Ok(acceleration_value(v@, a_prev@, r@, d_v@, dt as int, gravity@).narrow())
    } else {
        Err(NavError::OutOfRange)
    }
}

/// The rate of change of the ECEF velocity at the end of a step.
///
/// * `v` - velocity at the start of the step
/// * `a_prev` - rate of change of velocity at the start of the step
/// * `r` - attitude at the end of the step
/// * `d_v` - the accelerometers' velocity increment over the step
/// * `dt` - the step (s)
/// * `gravity` - gravity at the position, in ECEF
pub fn acceleration(
    v: &Vector3,
    a_prev: &Vector3,
    r: &Matrix3,
    d_v: &Vector3,
    dt: i64,
    gravity: &Vector3,
) -> (res: Result<Vector3, NavError>)
    ensures
        res == spec_acceleration(*v, *a_prev, *r, *d_v, dt, *gravity),
{
    let w: Matrix3 = Matrix3::new(0, -OMEGA_EARTH, 0, OMEGA_EARTH, 0, 0, 0, 0, 0);
    let v_pred: Vector3 = v.plus(&a_prev.scaled(dt)?)?;
    let coriolis: Vector3 = w.times_vec(&v_pred)?.scaled(-2 * ONE)?;
    let h: i64 = product(HALF, dt)?;
    let d: Vector3 = v.plus(&v_pred)?.scaled(h)?;
    let centrifugal: Vector3 = w.times_vec(&w.times_vec(&d)?)?.negated()?;
    let force: Vector3 = r.times_vec(&d_v.over(dt)?)?;
    coriolis.plus(&centrifugal)?.plus(&force)?.plus(gravity)
}

/// Three times the identity matrix.
pub open spec fn triple_identity() -> Mat3 {
    Mat3::diagonal(Vec3 { x: 3 * ONE, y: 3 * ONE, z: 3 * ONE })
}

/// How far `r` is from orthonormal, as a matrix: `R R^T - I`.
pub open spec fn deviation_value(r: Mat3) -> Mat3 {
    r.times(r.transpose()).minus(Mat3::identity())
}

/// The Frobenius norm of `R R^T - I`, or the error.
pub open spec fn spec_orthonormality_error(r: Matrix3) -> Result<i64, NavError> {
    if r@.times(r@.transpose()).fits() && deviation_value(r@).fits() {
        deviation_value(r@).frobenius_checked()
    } else {
        Err(NavError::OutOfRange)
    }
}

/// The measure of an attitude matrix' drift from orthonormality: the
/// Frobenius norm of `R R^T - I`.
pub fn orthonormality_error(r: &Matrix3) -> (res: Result<i64, NavError>)
    ensures
        res == spec_orthonormality_error(*r),
        r@.within(48 * ONE) ==> res is Ok,
        res matches Err(e) ==> e == NavError::OutOfRange,
{
    proof {
        if r@.within(48 * ONE) {
            lemma_drift_measure_exists(*r);
        }
    }
    r.times(&r.transpose())?.minus(&Matrix3::identity())?.frobenius_norm()
}

/// The first-order correction factor of an attitude matrix,
/// `(3 I - R^T R) / 2`.
pub open spec fn correction_value(r: Mat3) -> Mat3 {
    triple_identity().minus(r.transpose().times(r)).scaled(HALF as int)
}

/// The attitude matrix brought back towards orthonormality,
/// `R (3 I - R^T R) / 2`.
pub open spec fn renormalized_value(r: Mat3) -> Mat3 {
    r.times(correction_value(r))
}

/// The renormalized attitude matrix, or the error.
pub open spec fn spec_renormalized(r: Matrix3) -> Result<Matrix3, NavError> {
    if r@.transpose().times(r@).fits() && triple_identity().minus(r@.transpose().times(r@)).fits()
        && correction_value(r@).fits() {
        renormalized_value(r@).narrowed()
    } else {
        Err(NavError::OutOfRange)
    }
}

/// One step of the polar decomposition's iteration: the nearest orthonormal
/// matrix to `r`, to first order in `r`'s deviation from one.
pub fn renormalized(r: &Matrix3) -> (res: Result<Matrix3, NavError>)
    ensures
        res == spec_renormalized(*r),
        r@.within(2 * ONE) ==> res is Ok,
        res matches Err(e) ==> e == NavError::OutOfRange,
{
    proof {
        if r@.within(2 * ONE) {
            lemma_drift_measures_succeed(*r);
        }
    }
    let gram: Matrix3 = r.transpose().times(r)?;
    let triple: Matrix3 = Matrix3::from_diagonal(&Vector3::new(3 * ONE, 3 * ONE, 3 * ONE));
    let correction: Matrix3 = triple.minus(&gram)?.scaled(HALF)?;
    r.times(&correction)
}

/// Gravity of magnitude `GEQ` towards the centre of the Earth, zero at the
/// centre itself; or the error.
pub open spec fn spec_normal_gravity(position: Vector3) -> Result<Vector3, NavError> {
    let n = position@.norm();
    if !representable(n) {
        Err(NavError::OutOfRange)
    } else if n == 0 {
        Ok(Vector3 { x: 0, y: 0, z: 0 })
    } else if position@.over(n).fits() {
        position@.over(n).scaled(-GEQ).narrowed()
    } else {
        Err(NavError::OutOfRange)
    }
}

/// The default gravity model: the normal gravity at the equator, `GEQ`,
/// directed from `position` to the centre of the Earth.
///
/// At the surface it is within 0.6% of normal gravity in magnitude and within
/// 0.2 degrees of the ellipsoid's normal in direction; it does not decrease
/// with height.
pub fn normal_gravity(position: &Vector3) -> (r: Result<Vector3, NavError>)
    ensures
        r == spec_normal_gravity(*position),
        representable(position@.norm()) ==> r is Ok,
{
    proof {
        if representable(position@.norm()) && position@.norm() != 0 {
            lemma_unit_within(position@);
            lemma_scaled_within(position@.over(position@.norm()), -GEQ, ONE as int, 10);
        }
    }
    let n: i64 = position.norm()?;
    if n == 0 {
        Ok(Vector3::zeros())
    } else {
        position.over(n)?.scaled(-GEQ)
    }
}

/// Whether two states move alike: the same time, position, velocity and
/// rate of change of velocity, whatever their attitudes.
pub open spec fn same_motion(a: Strapdown, b: Strapdown) -> bool {
    &&& a.t == b.t
    &&& a.nav_state.position == b.nav_state.position
    &&& a.nav_state.velocity == b.nav_state.velocity
    &&& a.v_dot_prev == b.v_dot_prev
}

/// Whether a sample holds no velocity increment.
pub open spec fn no_velocity_increment(imu: ImuMeasurement) -> bool {
    imu.d_v == (Vector3 { x: 0, y: 0, z: 0 })
}

/// The state after integrating a run of samples, each with its gravity and
/// its rotation; or the first error.
pub open spec fn spec_run(
    s: Strapdown,
    samples: Seq<ImuMeasurement>,
    gravities: Seq<Vector3>,
    rotations: Seq<Angle>,
) -> Result<Strapdown, NavError>
    recommends
        gravities.len() == samples.len(),
        rotations.len() == samples.len(),
    decreases samples.len(),
{
    if samples.len() == 0 {
        Ok(s)
    } else {
        match s.spec_integrate(samples[0], gravities[0], rotations[0]) {
            Ok(next) => spec_run(
                next,
                samples.drop_first(),
                gravities.drop_first(),
                rotations.drop_first(),
            ),
            Err(e) => Err(e),
        }
    }
}

/// The drift measure above which `advance` renormalizes the attitude: a
/// thousand units in the last place.
pub const DRIFT_LIMIT: i64 = 1_000;

/// How often at most `advance` renormalizes an attitude in one step.
pub const RENORMALIZATIONS: u8 = 3;

/// An attitude settled: the matrix itself where its drift measure is at
/// most `DRIFT_LIMIT`, else its renormalization settled with one try less;
/// with the drift measure of the result. With no try left the attitude has
/// drifted beyond mending.
pub open spec fn spec_settled(m: Matrix3, tries: nat) -> Result<(Matrix3, i64), NavError>
    decreases tries,
{
    match spec_orthonormality_error(m) {
        Ok(drift) => if drift <= DRIFT_LIMIT {
            Ok((m, drift))
        } else if tries == 0 {
            Err(NavError::Drifted)
        } else {
            match spec_renormalized(m) {
                Ok(next) => spec_settled(next, (tries - 1) as nat),
                Err(e) => Err(e),
            }
        },
        Err(e) => Err(e),
    }
}

/// Renormalizes an attitude matrix until its drift measure is at most
/// `DRIFT_LIMIT`, at most `tries` times. Returns the matrix and its drift
/// measure.
pub fn settled(m: &Matrix3, tries: u8) -> (r: Result<(Matrix3, i64), NavError>)
    ensures
        r == spec_settled(*m, tries as nat),
        r matches Ok(done) ==> done.1 <= DRIFT_LIMIT && spec_orthonormality_error(done.0) == Ok::<
            i64,
            NavError,
        >(done.1),
        spec_orthonormality_error(*m) matches Ok(drift) ==> (drift <= DRIFT_LIMIT ==> r == Ok::<
            (Matrix3, i64),
            NavError,
        >((*m, drift))),
        r matches Err(e) ==> e == NavError::OutOfRange || e == NavError::Drifted,
    decreases tries,
{
    let drift: i64 = orthonormality_error(m)?;
    if drift <= DRIFT_LIMIT {
        Ok((*m, drift))
    } else if tries == 0 {
        Err(NavError::Drifted)
    } else {
        let next: Matrix3 = renormalized(m)?;
        settled(&next, tries - 1)
    }
}

/// The longest step (ns) of the envelope in which a step is sure to succeed:
/// one second.
pub const ENVELOPE_STEP: i64 = 1_000_000_000;

/// The envelope's largest rate of turn (rad/s) and rate of change of
/// velocity (m/s^2), sensed or carried over.
pub const ENVELOPE_RATE: i64 = 1_000_000_000_000_000;

/// The envelope's largest speed (m/s), along each axis.
pub const ENVELOPE_SPEED: i64 = 10_000_000_000_000_000;

/// The envelope's largest distance (m) from the centre, along each axis.
pub const ENVELOPE_POSITION: i64 = 7_000_000_000_000_000_000;

/// The envelope's largest gravity (m/s^2), along each axis.
pub const ENVELOPE_GRAVITY: i64 = 100_000_000_000_000;

/// Whether an increment over `dt` stays within the envelope's rate.
pub open spec fn within_rate(increment: Vector3, dt: int) -> bool {
    &&& magnitude(increment.x as int) * ONE <= ENVELOPE_RATE * dt
    &&& magnitude(increment.y as int) * ONE <= ENVELOPE_RATE * dt
    &&& magnitude(increment.z as int) * ONE <= ENVELOPE_RATE * dt
}

/// The envelope of states and samples for which the step's angle is sure
/// to exist: a step of at most a second, attitude entries of at most two,
/// and a rate of turn within `ENVELOPE_RATE`.
pub open spec fn in_turn_envelope(s: Strapdown, imu: ImuMeasurement) -> bool {
    &&& 0 < imu.t - s.t <= ENVELOPE_STEP
    &&& s.nav_state.body_to_ecef@.within(2 * ONE)
    &&& within_rate(imu.d_theta, (imu.t - s.t) * UNITS_PER_TICK)
}

/// The envelope of states, samples, gravity and rotation for which a step
/// is sure to succeed: a step of at most a second, attitude entries of at
/// most two, the sine and cosine of an angle, and position, speed, rates
/// and gravity within the `ENVELOPE_` constants.
pub open spec fn in_step_envelope(
    s: Strapdown,
    imu: ImuMeasurement,
    gravity: Vector3,
    rotation: Angle,
) -> bool {
    &&& in_turn_envelope(s, imu)
    &&& s.nav_state.position@.within(ENVELOPE_POSITION as int)
    &&& s.nav_state.velocity@.within(ENVELOPE_SPEED as int)
    &&& s.v_dot_prev@.within(ENVELOPE_RATE as int)
    &&& within_rate(imu.d_v, (imu.t - s.t) * UNITS_PER_TICK)
    &&& gravity@.within(ENVELOPE_GRAVITY as int)
    &&& rotation.valid()
}

impl Strapdown {
    /// The strapdown at time zero, at rest at the origin.
    pub open spec fn spec_origin() -> Strapdown {
        Strapdown {
            t: 0,
            nav_state: NavState::spec_origin(),
            nav_state_prev: NavState::spec_origin(),
            v_dot_prev: Vector3 { x: 0, y: 0, z: 0 },
        }
    }

    /// The state after integrating `imu`, or the error: an invalid timestep
    /// when the sample is not later than the state, else an invalid
    /// rotation when the sine and cosine passed belong to no angle, else
    /// out of range when a value of the step cannot be stored.
    pub open spec fn spec_integrate(
        self,
        imu: ImuMeasurement,
        gravity: Vector3,
        rotation: Angle,
    ) -> Result<Strapdown, NavError> {
        let state = self.nav_state;
        match spec_interval(self.t, imu.t) {
            Ok(dt) => match spec_checked_attitude(
                state.body_to_ecef,
                imu.d_theta,
                dt,
                rotation,
            ) {
                Ok(body_to_ecef) => match spec_acceleration(
                    state.velocity,
                    self.v_dot_prev,
                    body_to_ecef,
                    imu.d_v,
                    dt,
                    gravity,
                ) {
                    Ok(v_dot) => match spec_trapezoid(
                        state.velocity,
                        self.v_dot_prev,
                        v_dot,
                        dt,
                    ) {
                        Ok(velocity) => match spec_trapezoid(
                            state.position,
                            state.velocity,
                            velocity,
                            dt,
                        ) {
                            Ok(position) => Ok(
                                Strapdown {
                                    t: imu.t,
                                    nav_state: NavState { position, velocity, body_to_ecef },
                                    nav_state_prev: state,
                                    v_dot_prev: v_dot,
                                },
                            ),
                            Err(e) => Err(e),
                        },
                        Err(e) => Err(e),
                    },
                    Err(e) => Err(e),
                },
                Err(e) => Err(e),
            },
            Err(e) => Err(e),
        }
    }

    /// This state with another attitude.
    pub open spec fn with_attitude(self, m: Matrix3) -> Strapdown {
        Strapdown { nav_state: NavState { body_to_ecef: m, ..self.nav_state }, ..self }
    }

    /// The state after integrating `imu` and settling the attitude, with the
    /// drift measure of the attitude kept; or the error.
    pub open spec fn spec_advance(
        self,
        imu: ImuMeasurement,
        gravity: Vector3,
        rotation: Angle,
    ) -> Result<(Strapdown, i64), NavError> {
        match self.spec_integrate(imu, gravity, rotation) {
            Ok(next) => match spec_settled(next.nav_state.body_to_ecef, RENORMALIZATIONS as nat) {
                Ok(done) => Ok((next.with_attitude(done.0), done.1)),
                Err(e) => Err(e),
            },
            Err(e) => Err(e),
        }
    }

    /// The angle that a step to `imu` would turn the body through, or the
    /// error.
    pub open spec fn spec_rotation_angle(self, imu: ImuMeasurement) -> Result<i64, NavError> {
        match spec_interval(self.t, imu.t) {
            Ok(dt) => match spec_body_rate(self.nav_state.body_to_ecef, imu.d_theta, dt) {
                Ok(rate) => spec_rotation_angle(rate, dt),
                Err(e) => Err(e),
            },
            Err(e) => Err(e),
        }
    }

    /// Initialization of the strapdown state.
    ///
    /// * `init_t` - timestamp, nanoseconds since the UTC epoch
    /// * `init_state` - initial ECEF position, velocity and attitude
    ///
    /// The previous state is the initial one and the previous rate of change
    /// of velocity is zero.
    pub fn new(init_t: i64, init_state: NavState) -> (r: Strapdown)
        ensures
            r == (Strapdown {
                t: init_t,
                nav_state: init_state,
                nav_state_prev: init_state,
                v_dot_prev: Vector3 { x: 0, y: 0, z: 0 },
            }),
    {
        Strapdown {
            t: init_t,
            nav_state: init_state,
            nav_state_prev: init_state,
            v_dot_prev: Vector3::zeros(),
        }
    }

    /// The angle (rad) that integrating `imu` turns the body through with
    /// respect to ECEF. Its sine and cosine are what `integrate` takes as
    /// `rotation`.
    pub fn rotation_angle(&self, imu: &ImuMeasurement) -> (r: Result<i64, NavError>)
        ensures
            r == self.spec_rotation_angle(*imu),
            r == Err::<i64, NavError>(NavError::InvalidTimestep) <==> imu.t <= self.t,
            in_turn_envelope(*self, *imu) ==> r is Ok,
    {
        proof {
            if in_turn_envelope(*self, *imu) {
                lemma_rotation_angle_succeeds(*self, *imu);
            }
        }
        let dt: i64 = interval(self.t, imu.t)?;
        let rate: Vector3 = body_rate(&self.nav_state.body_to_ecef, &imu.d_theta, dt)?;
        rotation_angle(&rate, dt)
    }

    /// The drift of the attitude from orthonormality: the Frobenius norm of
    /// `R R^T - I` for the current body-to-ECEF matrix `R`.
    pub fn orthonormality_error(&self) -> (r: Result<i64, NavError>)
        ensures
            r == spec_orthonormality_error(self.nav_state.body_to_ecef),
    {
        orthonormality_error(&self.nav_state.body_to_ecef)
    }

    /// Brings the attitude back towards orthonormality. Position, velocity
    /// and time are kept; on an error the state is left as it was.
    pub fn renormalize(&mut self) -> (r: Result<(), NavError>)
        ensures
            spec_renormalized(old(self).nav_state.body_to_ecef) matches Ok(m) ==> r is Ok
                && *final(self) == (Strapdown {
                nav_state: NavState { body_to_ecef: m, ..old(self).nav_state },
                ..*old(self)
            }),
            spec_renormalized(old(self).nav_state.body_to_ecef) matches Err(e) ==> r == Err::<
                (),
                NavError,
            >(e) && *final(self) == *old(self),
    {
        let m: Matrix3 = renormalized(&self.nav_state.body_to_ecef)?;
        self.nav_state.body_to_ecef = m;
        Ok(())
    }

    /// Integrates the sample and keeps the attitude's drift in hand: the
    /// attitude is renormalized until its drift measure is at most
    /// `DRIFT_LIMIT`. Returns the drift measure of the attitude that the
    /// state now holds, which is at most `DRIFT_LIMIT`: after any number of
    /// steps.
    ///
    /// * `imu` - the IMU measurement, later than the state
    /// * `gravity` - gravity at the current position, in ECEF (m/s^2)
    /// * `rotation` - sine and cosine of `self.rotation_angle(imu)`
    ///
    /// The errors are those of `integrate`; out of range when the drift
    /// measure or a renormalized attitude cannot be stored; and drifted
    /// when `RENORMALIZATIONS` renormalizations do not bring the measure
    /// under the limit. Drift is corrected, not raised: the last error
    /// tells of an attitude that renormalizing cannot mend. On an error the
    /// state is left as it was.
    pub fn advance(&mut self, imu: &ImuMeasurement, gravity: &Vector3, rotation: &Angle) -> (r:
        Result<i64, NavError>)
        ensures
            old(self).spec_advance(*imu, *gravity, *rotation) matches Ok(done) ==> r == Ok::<
                i64,
                NavError,
            >(done.1) && *final(self) == done.0,
            old(self).spec_advance(*imu, *gravity, *rotation) matches Err(e) ==> r == Err::<
                i64,
                NavError,
            >(e) && *final(self) == *old(self),
            r == Err::<i64, NavError>(NavError::InvalidTimestep) <==> imu.t <= old(self).t,
            r == Err::<i64, NavError>(NavError::InvalidRotation) <==> spec_interval(
                old(self).t,
                imu.t,
            ) is Ok && !rotation.valid(),
            r matches Ok(drift) ==> drift <= DRIFT_LIMIT && spec_orthonormality_error(
                final(self).nav_state.body_to_ecef,
            ) == Ok::<i64, NavError>(drift),
            r is Ok ==> old(self).spec_integrate(*imu, *gravity, *rotation) is Ok,
            old(self).spec_integrate(*imu, *gravity, *rotation) matches Ok(next) ==> (r is Ok
                ==> *final(self) == next.with_attitude(final(self).nav_state.body_to_ecef)),
            old(self).spec_integrate(*imu, *gravity, *rotation) matches Ok(next) ==> (
            spec_orthonormality_error(next.nav_state.body_to_ecef) matches Ok(drift) ==> (drift
                <= DRIFT_LIMIT ==> r == Ok::<i64, NavError>(drift) && *final(self) == next)),
    {
        let mut next: Strapdown = *self;
        next.integrate(imu, gravity, rotation)?;
        let done: (Matrix3, i64) = settled(&next.nav_state.body_to_ecef, RENORMALIZATIONS)?;
        next.nav_state.body_to_ecef = done.0;
        *self = next;
        Ok(done.1)
    }

    /// Integrate the strapdown state with IMU data.
    ///
    /// * `imu` - the IMU measurement, later than the state
    /// * `gravity` - gravity at the current position, in ECEF (m/s^2)
    /// * `rotation` - sine and cosine of `self.rotation_angle(imu)`
    ///
    /// A sample that is not later than the state is an invalid timestep. A
    /// sine and cosine that belong to no angle are an invalid rotation. A
    /// step within the envelope succeeds. On an error the state is left as
    /// it was.
    pub fn integrate(&mut self, imu: &ImuMeasurement, gravity: &Vector3, rotation: &Angle) -> (r:
        Result<(), NavError>)
        ensures
            old(self).spec_integrate(*imu, *gravity, *rotation) matches Ok(next) ==> r is Ok
                && *final(self) == next,
            old(self).spec_integrate(*imu, *gravity, *rotation) matches Err(e) ==> r == Err::<
                (),
                NavError,
            >(e) && *final(self) == *old(self),
            r == Err::<(), NavError>(NavError::InvalidTimestep) <==> imu.t <= old(self).t,
            r == Err::<(), NavError>(NavError::InvalidRotation) <==> spec_interval(
                old(self).t,
                imu.t,
            ) is Ok && !rotation.valid(),
            r is Ok ==> final(self).t == imu.t,
            r is Ok ==> final(self).nav_state_prev == old(self).nav_state,
            in_step_envelope(*old(self), *imu, *gravity, *rotation) ==> r is Ok,
    {
        proof {
            if in_step_envelope(*self, *imu, *gravity, *rotation) {
                lemma_integrate_succeeds(*self, *imu, *gravity, *rotation);
            }
        }
        let dt: i64 = interval(self.t, imu.t)?;
        if !rotation.is_valid() {
            return Err(NavError::InvalidRotation);
        }
        let body_to_ecef: Matrix3 = attitude_update(
            &self.nav_state.body_to_ecef,
            &imu.d_theta,
            dt,
            rotation,
        )?;
        let v_dot: Vector3 = acceleration(
            &self.nav_state.velocity,
            &self.v_dot_prev,
            &body_to_ecef,
            &imu.d_v,
            dt,
            gravity,
        )?;
        let velocity: Vector3 = trapezoid(&self.nav_state.velocity, &self.v_dot_prev, &v_dot, dt)?;
        let position: Vector3 = trapezoid(
            &self.nav_state.position,
            &self.nav_state.velocity,
            &velocity,
            dt,
        )?;
        self.nav_state_prev = self.nav_state;
        self.nav_state = NavState { position, velocity, body_to_ecef };
        self.v_dot_prev = v_dot;
        self.t = imu.t;
        Ok(())
    }
}

/// A matrix whose product with its transpose is the identity has no
/// orthonormality error.
pub proof fn lemma_orthonormal_has_no_error(r: Matrix3)
    requires
        r@.times(r@.transpose()) == Mat3::identity(),
    ensures
        spec_orthonormality_error(r) == Ok::<i64, NavError>(0),
{
    let zero = Vec3 { x: 0, y: 0, z: 0 };
    let d = deviation_value(r@);
    assert(d.r0 == zero && d.r1 == zero && d.r2 == zero);
    assert(zero.x * zero.x + zero.y * zero.y + zero.z * zero.z == 0);
    lemma_floor_root_unique(0, 0);
    assert(zero.norm() == 0);
    assert(d.row_norms() == zero);
}

/// With no velocity, no rate of change of velocity, no velocity increment
/// and no gravity, the rate of change of velocity is zero and the
/// trapezoidal rule keeps velocity and position: whatever the attitude and
/// the step.
proof fn lemma_rest_has_no_acceleration(position: Vector3, r: Matrix3, dt: i64)
    requires
        dt != 0,
        representable(dt as int),
        position@.fits(),
    ensures
        spec_acceleration(
            Vector3 { x: 0, y: 0, z: 0 },
            Vector3 { x: 0, y: 0, z: 0 },
            r,
            Vector3 { x: 0, y: 0, z: 0 },
            dt,
            Vector3 { x: 0, y: 0, z: 0 },
        ) == Ok::<Vector3, NavError>(Vector3 { x: 0, y: 0, z: 0 }),
        spec_trapezoid(
            Vector3 { x: 0, y: 0, z: 0 },
            Vector3 { x: 0, y: 0, z: 0 },
            Vector3 { x: 0, y: 0, z: 0 },
            dt,
        ) == Ok::<Vector3, NavError>(Vector3 { x: 0, y: 0, z: 0 }),
        spec_trapezoid(
            position,
            Vector3 { x: 0, y: 0, z: 0 },
            Vector3 { x: 0, y: 0, z: 0 },
            dt,
        ) == Ok::<Vector3, NavError>(position),
{
    let zero = Vec3 { x: 0, y: 0, z: 0 };
    let w = earth_rate_matrix();
    lemma_product_value_contracts(dt as int, HALF as int);
    assert(HALF * dt == dt * HALF) by (nonlinear_arith);
    assert(representable(half_step(dt as int)));
    lemma_product_value_units(dt as int);
    lemma_product_value_units(half_step(dt as int));
    lemma_product_value_units(-2 * ONE);
    lemma_product_value_units(0);
    lemma_product_value_units(OMEGA_EARTH as int);
    lemma_product_value_units(-OMEGA_EARTH);
    lemma_product_value_units(r.r0.x as int);
    lemma_product_value_units(r.r0.y as int);
    lemma_product_value_units(r.r0.z as int);
    lemma_product_value_units(r.r1.x as int);
    lemma_product_value_units(r.r1.y as int);
    lemma_product_value_units(r.r1.z as int);
    lemma_product_value_units(r.r2.x as int);
    lemma_product_value_units(r.r2.y as int);
    lemma_product_value_units(r.r2.z as int);
    lemma_quotient_value_of_zero(dt as int);
    assert(zero.scaled(dt as int) == zero);
    assert(predicted_velocity(zero, zero, dt as int) == zero);
    assert(w.times_vec(zero) == zero);
    assert(coriolis_value(zero) == zero);
    assert(zero.plus(zero) == zero);
    assert(mean_displacement(zero, zero, dt as int) == zero);
    assert(centrifugal_value(zero) == zero);
    assert(zero.over(dt as int) == zero);
    assert(specific_force_value(r@, zero, dt as int) == zero);
    assert(acceleration_value(zero, zero, r@, zero, dt as int, zero) == zero);
    assert(zero.narrow() == (Vector3 { x: 0, y: 0, z: 0 }));
    assert(trapezoid_value(zero, zero, zero, dt as int) == zero);
    assert(trapezoid_value(position@, zero, zero, dt as int) == position@);
    assert(position@.narrow() == position);
}

/// The drift measure and the renormalization of a matrix with entries of at
/// most two exist.
pub proof fn lemma_drift_measures_succeed(r: Matrix3)
    requires
        r@.within(2 * ONE),
    ensures
        spec_orthonormality_error(r) is Ok,
        spec_renormalized(r) is Ok,
{
    let m = r@;
    assert(m.transpose().within(2 * ONE));
    lemma_times_within(m, m.transpose(), 2 * ONE, 2);
    let d = deviation_value(m);
    assert(d.within(13 * ONE));
    lemma_norm_within(d.r0, 13 * ONE);
    lemma_norm_within(d.r1, 13 * ONE);
    lemma_norm_within(d.r2, 13 * ONE);
    lemma_norm_within(d.row_norms(), 26 * ONE);
    lemma_times_within(m.transpose(), m, 2 * ONE, 2);
    let c = triple_identity().minus(m.transpose().times(m));
    assert(c.within(15 * ONE));
    lemma_matrix_scaled_within(c, HALF as int, 15 * ONE, 1);
    lemma_times_within(m, correction_value(m), 2 * ONE, 15);
}

/// Whatever the attitude and however many tries, a settled attitude has a
/// drift measure of at most `DRIFT_LIMIT`: so has the attitude after every
/// successful `advance`, after any number of steps.
pub proof fn lemma_settled_is_within_limit(m: Matrix3, tries: nat)
    ensures
        spec_settled(m, tries) matches Ok(done) ==> done.1 <= DRIFT_LIMIT
            && spec_orthonormality_error(done.0) == Ok::<i64, NavError>(done.1),
    decreases tries,
{
    if let Ok(drift) = spec_orthonormality_error(m) {
        if drift > DRIFT_LIMIT && tries > 0 {
            if let Ok(next) = spec_renormalized(m) {
                lemma_settled_is_within_limit(next, (tries - 1) as nat);
            }
        }
    }
}

/// The drift measure of a matrix with entries of at most forty-eight
/// exists: so it does for the attitude after any step within the envelope.
pub proof fn lemma_drift_measure_exists(r: Matrix3)
    requires
        r@.within(48 * ONE),
    ensures
        spec_orthonormality_error(r) is Ok,
{
    let m = r@;
    assert(m.transpose().within(48 * ONE));
    lemma_times_within(m, m.transpose(), 48 * ONE, 48);
    let d = deviation_value(m);
    assert(d.within(6_913 * ONE));
    lemma_norm_within(d.r0, 6_913 * ONE);
    lemma_norm_within(d.r1, 6_913 * ONE);
    lemma_norm_within(d.r2, 6_913 * ONE);
    lemma_norm_within(d.row_norms(), 13_826 * ONE);
}

/// Within the envelope `advance` has the step and its drift measure: it
/// succeeds with the integrated state whenever that measure is at most
/// `DRIFT_LIMIT`.
pub proof fn lemma_advance_within_envelope(
    s: Strapdown,
    imu: ImuMeasurement,
    gravity: Vector3,
    rotation: Angle,
)
    requires
        in_step_envelope(s, imu, gravity, rotation),
    ensures
        s.spec_integrate(imu, gravity, rotation) matches Ok(next) && spec_orthonormality_error(
            next.nav_state.body_to_ecef,
        ) is Ok,
{
    lemma_integrate_succeeds(s, imu, gravity, rotation);
    assert(UNITS_PER_TICK == 1_000 && ENVELOPE_STEP == 1_000_000_000);
    let dt = ((imu.t - s.t) * UNITS_PER_TICK) as i64;
    lemma_attitude_succeeds(s.nav_state.body_to_ecef, imu.d_theta, dt, rotation);
    let next = s.spec_integrate(imu, gravity, rotation)->Ok_0;
    lemma_drift_measure_exists(next.nav_state.body_to_ecef);
}

/// A matrix whose transpose's product with it is the identity is left as
/// it is by renormalization.
pub proof fn lemma_renormalized_keeps_orthonormal(r: Matrix3)
    requires
        r@.transpose().times(r@) == Mat3::identity(),
        r@.fits(),
    ensures
        spec_renormalized(r) == Ok::<Matrix3, NavError>(r),
{
    lemma_product_value_units(HALF as int);
    assert(2 * ONE * HALF == ONE * ONE) by (nonlinear_arith)
        requires
            ONE == 1_000_000_000_000,
            HALF == 500_000_000_000,
    ;
    lemma_round_div_exact(ONE as int, ONE as int);
    assert(correction_value(r@) == Mat3::identity());
    lemma_times_identity(r@);
    assert(r@.narrow() == r);
}

/// A body that does not turn with respect to ECEF keeps its attitude: when
/// the body rate of the step is zero, the attitude after it is the attitude
/// before it, whatever the step and the angle whose sine and cosine are
/// passed.
pub proof fn lemma_zero_rate_keeps_attitude(
    r: Matrix3,
    d_theta: Vector3,
    dt: i64,
    rotation: Angle,
)
    requires
        spec_body_rate(r, d_theta, dt) == Ok::<Vector3, NavError>(Vector3 { x: 0, y: 0, z: 0 }),
        r@.fits(),
        rotation.valid(),
    ensures
        spec_increment(Vector3 { x: 0, y: 0, z: 0 }, dt, rotation) == Ok::<Matrix3, NavError>(
            Mat3::identity().narrow(),
        ),
        spec_attitude(r, d_theta, dt, rotation) == Ok::<Matrix3, NavError>(r),
{
    let zero = Vec3 { x: 0, y: 0, z: 0 };
    let none = Mat3 { r0: zero, r1: zero, r2: zero };
    assert(zero.x * zero.x + zero.y * zero.y + zero.z * zero.z == 0);
    lemma_floor_root_unique(0, 0);
    assert(zero.norm() == 0);
    assert(is_small_rate(zero));
    lemma_product_value_units(dt as int);
    lemma_product_value_units(0);
    lemma_product_value_units(ONE as int);
    lemma_product_value_units(HALF as int);
    assert(zero.scaled(dt as int) == zero);
    assert(generator_value(zero, dt as int) == none);
    assert(none.scaled(ONE as int) == none);
    assert(none.times(none) == none);
    assert(none.scaled(HALF as int) == none);
    assert(increment_value(zero, dt as int, rotation) == Mat3::identity());
    lemma_times_identity(r@);
    assert(Mat3::identity().narrow()@ == Mat3::identity());
    assert(r@.narrow() == r);
}

/// With no velocity increment the specific force is zero whatever the
/// attitude: the rate of change of velocity is the sum of the Coriolis
/// term, the centrifugal term and gravity, and is the same for any two
/// attitudes.
pub proof fn lemma_no_increment_ignores_attitude(
    v: Vector3,
    a_prev: Vector3,
    r1: Matrix3,
    r2: Matrix3,
    dt: i64,
    gravity: Vector3,
)
    ensures
        spec_acceleration(v, a_prev, r1, Vector3 { x: 0, y: 0, z: 0 }, dt, gravity)
            == spec_acceleration(v, a_prev, r2, Vector3 { x: 0, y: 0, z: 0 }, dt, gravity),
        dt != 0 ==> acceleration_value(
            v@,
            a_prev@,
            r1@,
            Vec3 { x: 0, y: 0, z: 0 },
            dt as int,
            gravity@,
        ) == coriolis_value(predicted_velocity(v@, a_prev@, dt as int)).plus(
            centrifugal_value(
                mean_displacement(v@, predicted_velocity(v@, a_prev@, dt as int), dt as int),
            ),
        ).plus(gravity@),
{
    if dt != 0 {
        lemma_no_specific_force(r1, dt);
        lemma_no_specific_force(r2, dt);
    }
}

/// A step with no velocity increment keeps two states that differ in
/// attitude alone moving alike: the velocity and the position after it do
/// not depend on the attitude, nor on the rotation passed.
pub proof fn lemma_motion_ignores_attitude(
    a: Strapdown,
    b: Strapdown,
    imu: ImuMeasurement,
    gravity: Vector3,
    turn_a: Angle,
    turn_b: Angle,
)
    requires
        same_motion(a, b),
        imu.d_v == (Vector3 { x: 0, y: 0, z: 0 }),
        a.spec_integrate(imu, gravity, turn_a) is Ok,
        b.spec_integrate(imu, gravity, turn_b) is Ok,
    ensures
        same_motion(
            a.spec_integrate(imu, gravity, turn_a)->Ok_0,
            b.spec_integrate(imu, gravity, turn_b)->Ok_0,
        ),
{
    let dt = spec_interval(a.t, imu.t)->Ok_0;
    let ra = spec_checked_attitude(a.nav_state.body_to_ecef, imu.d_theta, dt, turn_a)->Ok_0;
    let rb = spec_checked_attitude(b.nav_state.body_to_ecef, imu.d_theta, dt, turn_b)->Ok_0;
    lemma_no_increment_ignores_attitude(
        a.nav_state.velocity,
        a.v_dot_prev,
        ra,
        rb,
        dt,
        gravity,
    );
}

/// Over any run of samples with no velocity increment, under the same
/// gravity, two states that differ in attitude alone end moving alike:
/// velocity and position come from the Coriolis term, the centrifugal
/// term and gravity alone.
pub proof fn lemma_run_ignores_attitude(
    a: Strapdown,
    b: Strapdown,
    samples: Seq<ImuMeasurement>,
    gravities: Seq<Vector3>,
    turns_a: Seq<Angle>,
    turns_b: Seq<Angle>,
)
    requires
        same_motion(a, b),
        gravities.len() == samples.len(),
        turns_a.len() == samples.len(),
        turns_b.len() == samples.len(),
        forall|i: int| 0 <= i < samples.len() ==> no_velocity_increment(#[trigger] samples[i]),
        spec_run(a, samples, gravities, turns_a) is Ok,
        spec_run(b, samples, gravities, turns_b) is Ok,
    ensures
        same_motion(
            spec_run(a, samples, gravities, turns_a)->Ok_0,
            spec_run(b, samples, gravities, turns_b)->Ok_0,
        ),
    decreases samples.len(),
{
    if samples.len() > 0 {
        lemma_motion_ignores_attitude(a, b, samples[0], gravities[0], turns_a[0], turns_b[0]);
        let rest = samples.drop_first();
        assert forall|i: int| 0 <= i < rest.len() implies no_velocity_increment(
            #[trigger] rest[i],
        ) by {
            assert(rest[i] == samples[i + 1]);
        }
        lemma_run_ignores_attitude(
            a.spec_integrate(samples[0], gravities[0], turns_a[0])->Ok_0,
            b.spec_integrate(samples[0], gravities[0], turns_b[0])->Ok_0,
            rest,
            gravities.drop_first(),
            turns_a.drop_first(),
            turns_b.drop_first(),
        );
    }
}

/// The specific force of no velocity increment is zero.
proof fn lemma_no_specific_force(r: Matrix3, dt: i64)
    requires
        dt != 0,
    ensures
        specific_force_value(r@, Vec3 { x: 0, y: 0, z: 0 }, dt as int) == (Vec3 {
            x: 0,
            y: 0,
            z: 0,
        }),
{
    let zero = Vec3 { x: 0, y: 0, z: 0 };
    lemma_quotient_value_of_zero(dt as int);
    lemma_product_value_units(r.r0.x as int);
    lemma_product_value_units(r.r0.y as int);
    lemma_product_value_units(r.r0.z as int);
    lemma_product_value_units(r.r1.x as int);
    lemma_product_value_units(r.r1.y as int);
    lemma_product_value_units(r.r1.z as int);
    lemma_product_value_units(r.r2.x as int);
    lemma_product_value_units(r.r2.y as int);
    lemma_product_value_units(r.r2.z as int);
    assert(zero.over(dt as int) == zero);
}

/// A body at rest in ECEF that senses no velocity increment, under no
/// gravity, stays at rest: if the step succeeds, velocity and its rate of
/// change are still zero and the position is unchanged; and it succeeds
/// whenever the timestep is valid and the attitude update succeeds.
pub proof fn lemma_rest_stays_at_rest(s: Strapdown, imu: ImuMeasurement, rotation: Angle)
    requires
        s.nav_state.velocity == (Vector3 { x: 0, y: 0, z: 0 }),
        s.v_dot_prev == (Vector3 { x: 0, y: 0, z: 0 }),
        imu.d_v == (Vector3 { x: 0, y: 0, z: 0 }),
        s.nav_state.position@.fits(),
    ensures
        s.spec_integrate(imu, Vector3 { x: 0, y: 0, z: 0 }, rotation) matches Ok(next) ==> {
            &&& next.nav_state.velocity == s.nav_state.velocity
            &&& next.nav_state.position == s.nav_state.position
            &&& next.v_dot_prev == s.v_dot_prev
        },
        s.spec_integrate(imu, Vector3 { x: 0, y: 0, z: 0 }, rotation) is Ok <==> (spec_interval(
            s.t,
            imu.t,
        ) matches Ok(dt) && spec_checked_attitude(
            s.nav_state.body_to_ecef,
            imu.d_theta,
            dt,
            rotation,
        ) is Ok),
{
    if let Ok(dt) = spec_interval(s.t, imu.t) {
        if let Ok(r) = spec_checked_attitude(
            s.nav_state.body_to_ecef,
            imu.d_theta,
            dt,
            rotation,
        ) {
            assert(dt != 0) by {
                assert(UNITS_PER_TICK == 1_000);
            }
            lemma_rest_has_no_acceleration(s.nav_state.position, r, dt);
        }
    }
}

/// Within the envelope the body rate exists and is bounded.
proof fn lemma_body_rate_succeeds(r: Matrix3, d_theta: Vector3, dt: i64)
    requires
        0 < dt <= ONE,
        r@.within(2 * ONE),
        within_rate(d_theta, dt as int),
    ensures
        spec_body_rate(r, d_theta, dt) is Ok,
        body_rate_value(r@, d_theta@, dt as int).within(ENVELOPE_RATE + 6 * OMEGA_EARTH),
{
    lemma_over_within(d_theta@, dt as int, ENVELOPE_RATE as int);
    lemma_times_vec_within(r@.transpose(), earth_rate(), 2, OMEGA_EARTH as int);
}

/// The skew matrix of a vector is within the vector's bound.
proof fn lemma_skew_within(v: Vec3, bound: int)
    requires
        v.within(bound),
    ensures
        skew_value(v).within(bound),
{
}

/// Within the envelope the step's rotation exists, with entries of at most
/// eight.
proof fn lemma_increment_succeeds(rate: Vector3, dt: i64, rotation: Angle)
    requires
        0 < dt <= ONE,
        rate@.within(ENVELOPE_RATE + 6 * OMEGA_EARTH),
        rotation.valid(),
    ensures
        spec_increment(rate, dt, rotation) is Ok,
        increment_value(rate@, dt as int, rotation).within(8 * ONE),
{
    let v = rate@;
    lemma_norm_within(v, ENVELOPE_RATE + 6 * OMEGA_EARTH);
    lemma_norm_dominates(v);
    let k = generator_value(v, dt as int);
    let a = first_coefficient(v, rotation);
    let b = second_coefficient(v, rotation);
    if is_small_rate(v) {
        lemma_scaled_within(v, dt as int, ONE as int, 1);
    } else {
        lemma_unit_within(v);
    }
    lemma_skew_within(if is_small_rate(v) {
        v.scaled(dt as int)
    } else {
        v.over(v.norm())
    }, ONE as int);
    assert(k.within(ONE as int));
    lemma_matrix_scaled_within(k, a, ONE as int, 1);
    lemma_times_within(k, k, ONE as int, 1);
    lemma_matrix_scaled_within(k.times(k), b, 3 * ONE, 2);
}

/// Within the envelope the attitude after the step exists, with entries of
/// at most forty-eight.
proof fn lemma_attitude_succeeds(r: Matrix3, d_theta: Vector3, dt: i64, rotation: Angle)
    requires
        0 < dt <= ONE,
        r@.within(2 * ONE),
        within_rate(d_theta, dt as int),
        rotation.valid(),
    ensures
        spec_attitude(r, d_theta, dt, rotation) matches Ok(m) && m@.within(48 * ONE),
{
    lemma_body_rate_succeeds(r, d_theta, dt);
    let rate = body_rate_value(r@, d_theta@, dt as int).narrow();
    lemma_increment_succeeds(rate, dt, rotation);
    let increment = increment_value(rate@, dt as int, rotation).narrow();
    lemma_times_within(r@, increment@, 2 * ONE, 8);
}

/// Half a step of at most a second is at most a second.
proof fn lemma_half_step_bound(dt: i64)
    requires
        0 < dt <= ONE,
    ensures
        0 <= half_step(dt as int) <= ONE,
{
    lemma_product_value_contracts(dt as int, HALF as int);
    lemma_product_value_symmetric(dt as int, HALF as int);
}

/// The trapezoidal rule over at most a second succeeds when start and rates
/// are bounded, and adds the rates' bound to the start's.
proof fn lemma_trapezoid_succeeds(x: Vector3, a: Vector3, b: Vector3, dt: i64, kx: int, k: int)
    requires
        0 < dt <= ONE,
        x@.within(kx),
        a@.plus(b@).within(k),
        kx + k <= i64::MAX,
    ensures
        spec_trapezoid(x, a, b, dt) matches Ok(r) && r@.within(kx + k),
{
    lemma_half_step_bound(dt);
    lemma_scaled_within(a@.plus(b@), half_step(dt as int), k, 1);
}

/// Within the envelope the rate of change of velocity exists and is
/// bounded.
proof fn lemma_acceleration_succeeds(
    v: Vector3,
    a_prev: Vector3,
    r: Matrix3,
    d_v: Vector3,
    dt: i64,
    gravity: Vector3,
)
    requires
        0 < dt <= ONE,
        v@.within(ENVELOPE_SPEED as int),
        a_prev@.within(ENVELOPE_RATE as int),
        r@.within(48 * ONE),
        within_rate(d_v, dt as int),
        gravity@.within(ENVELOPE_GRAVITY as int),
    ensures
        spec_acceleration(v, a_prev, r, d_v, dt, gravity) matches Ok(a) && a@.within(
            400 * ENVELOPE_RATE,
        ),
{
    let w = earth_rate_matrix();
    let step = dt as int;
    assert(w.within(1 * ONE));
    lemma_scaled_within(a_prev@, step, ENVELOPE_RATE as int, 1);
    let v_pred = predicted_velocity(v@, a_prev@, step);
    let speed = 11 * ENVELOPE_RATE;
    assert(v_pred.within(speed));
    lemma_times_vec_within(w, v_pred, 1, speed);
    lemma_scaled_within(w.times_vec(v_pred), -2 * ONE, 3 * (1 * speed), 2);
    lemma_half_step_bound(dt);
    lemma_scaled_within(v@.plus(v_pred), half_step(step), 21 * ENVELOPE_RATE, 1);
    let d = mean_displacement(v@, v_pred, step);
    lemma_times_vec_within(w, d, 1, 1 * (21 * ENVELOPE_RATE));
    lemma_times_vec_within(w, w.times_vec(d), 1, 3 * (1 * (1 * (21 * ENVELOPE_RATE))));
    lemma_over_within(d_v@, step, ENVELOPE_RATE as int);
    lemma_times_vec_within(r@, d_v@.over(step), 48, ENVELOPE_RATE as int);
}

/// Within the envelope the step's angle exists.
pub proof fn lemma_rotation_angle_succeeds(s: Strapdown, imu: ImuMeasurement)
    requires
        in_turn_envelope(s, imu),
    ensures
        s.spec_rotation_angle(imu) is Ok,
{
    assert(UNITS_PER_TICK == 1_000 && ENVELOPE_STEP == 1_000_000_000);
    let dt = ((imu.t - s.t) * UNITS_PER_TICK) as i64;
    assert(spec_interval(s.t, imu.t) == Ok::<i64, NavError>(dt));
    lemma_body_rate_succeeds(s.nav_state.body_to_ecef, imu.d_theta, dt);
    let rate = body_rate_value(s.nav_state.body_to_ecef@, imu.d_theta@, dt as int);
    lemma_norm_within(rate, ENVELOPE_RATE + 6 * OMEGA_EARTH);
    lemma_product_value_contracts(rate.norm(), dt as int);
}

/// A step within the envelope succeeds.
pub proof fn lemma_integrate_succeeds(
    s: Strapdown,
    imu: ImuMeasurement,
    gravity: Vector3,
    rotation: Angle,
)
    requires
        in_step_envelope(s, imu, gravity, rotation),
    ensures
        s.spec_integrate(imu, gravity, rotation) is Ok,
{
    let state = s.nav_state;
    assert(UNITS_PER_TICK == 1_000 && ENVELOPE_STEP == 1_000_000_000);
    let dt = ((imu.t - s.t) * UNITS_PER_TICK) as i64;
    assert(spec_interval(s.t, imu.t) == Ok::<i64, NavError>(dt));
    lemma_attitude_succeeds(state.body_to_ecef, imu.d_theta, dt, rotation);
    let r = spec_checked_attitude(state.body_to_ecef, imu.d_theta, dt, rotation)->Ok_0;
    lemma_acceleration_succeeds(state.velocity, s.v_dot_prev, r, imu.d_v, dt, gravity);
    let a = spec_acceleration(state.velocity, s.v_dot_prev, r, imu.d_v, dt, gravity)->Ok_0;
    lemma_trapezoid_succeeds(
        state.velocity,
        s.v_dot_prev,
        a,
        dt,
        ENVELOPE_SPEED as int,
        401 * ENVELOPE_RATE,
    );
    let velocity = spec_trapezoid(state.velocity, s.v_dot_prev, a, dt)->Ok_0;
    lemma_trapezoid_succeeds(
        state.position,
        state.velocity,
        velocity,
        dt,
        ENVELOPE_POSITION as int,
        421 * ENVELOPE_RATE,
    );
}

} // verus!
