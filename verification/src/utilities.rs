//! Sensor error correction.
use crate::fixed::lemma_product_value_bound;
use crate::fixed::lemma_product_value_symmetric;
use crate::fixed::lemma_product_value_units;
use crate::fixed::lemma_round_div_range;
use crate::fixed::magnitude;
use crate::fixed::lemma_round_div_odd;
use crate::fixed::ratio;
use crate::fixed::round_div;
use crate::fixed::ONE;
use crate::linalg::lemma_scaled_within;
use crate::linalg::lemma_times_vec_within;
use crate::linalg::Mat3;
use crate::linalg::Matrix3;
use crate::linalg::Vec3;
use crate::linalg::Vector3;
use crate::linalg::Vector6;
use crate::types::ImuError;
use crate::types::ImuMeasurement;
use crate::types::NavError;
use vstd::prelude::*;

verus! {

/// Scale factors are given in parts of this many.
pub const PARTS_PER_UNIT: i64 = 1_000_000;

/// A vector of parts per million as a vector of fractions.
pub open spec fn fraction_value(ppm: Vec3) -> Vec3 {
    Vec3 {
        x: round_div(ppm.x, PARTS_PER_UNIT as int),
        y: round_div(ppm.y, PARTS_PER_UNIT as int),
        z: round_div(ppm.z, PARTS_PER_UNIT as int),
    }
}

/// The scale factor matrix `I + diag(ppm / 1e6)`.
pub open spec fn scale_factor_value(ppm: Vec3) -> Mat3 {
    Mat3::identity().plus(Mat3::diagonal(fraction_value(ppm)))
}

/// The misalignment matrix: unit diagonal, the six terms off it row by row.
pub open spec fn misalignment_value(m: Vector6) -> Mat3 {
    Mat3 {
        r0: Vec3 { x: ONE as int, y: m.e0 as int, z: m.e1 as int },
        r1: Vec3 { x: m.e2 as int, y: ONE as int, z: m.e3 as int },
        r2: Vec3 { x: m.e4 as int, y: m.e5 as int, z: ONE as int },
    }
}

/// The bias accumulated over `dt`.
pub open spec fn drift_value(bias: Vec3, dt: int) -> Vec3 {
    bias.scaled(dt)
}

/// The combined matrix `ScaleFactor * Misalignment`.
pub open spec fn compensation_value(ppm: Vec3, m: Vector6) -> Mat3 {
    scale_factor_value(ppm).times(misalignment_value(m))
}

/// One sensor's corrected increment:
/// `ScaleFactor * Misalignment * (raw - bias * dt)`.
pub open spec fn corrected_value(raw: Vec3, ppm: Vec3, m: Vector6, bias: Vec3, dt: int) -> Vec3 {
    compensation_value(ppm, m).times_vec(raw.minus(drift_value(bias, dt)))
}

/// Whether every intermediate value of one sensor's correction can be stored.
pub open spec fn correction_fits(raw: Vec3, ppm: Vec3, m: Vector6, bias: Vec3, dt: int) -> bool {
    &&& fraction_value(ppm).fits()
    &&& scale_factor_value(ppm).fits()
    &&& compensation_value(ppm, m).fits()
    &&& drift_value(bias, dt).fits()
    &&& raw.minus(drift_value(bias, dt)).fits()
    &&& corrected_value(raw, ppm, m, bias, dt).fits()
}

/// One sensor's corrected increment, or the error when a value of the
/// computation cannot be stored.
pub open spec fn spec_correct_sensor(
    raw: Vector3,
    ppm: Vector3,
    m: Vector6,
    bias: Vector3,
    dt: i64,
) -> Result<Vector3, NavError> {
    if correction_fits(raw@, ppm@, m, bias@, dt as int) {
        Ok(corrected_value(raw@, ppm@, m, bias@, dt as int).narrow())
    } else {
        Err(NavError::OutOfRange)
    }
}

/// The corrected measurement: both sensors corrected, the timestamp kept.
pub open spec fn spec_correct_imu(meas: ImuMeasurement, error: ImuError, dt: i64) -> Result<
    ImuMeasurement,
    NavError,
> {
    let a = error.accelerometer_error;
    let g = error.gyroscope_error;
    match (
        spec_correct_sensor(meas.d_v, a.scale_factor, a.misalignment, a.bias, dt),
        spec_correct_sensor(meas.d_theta, g.scale_factor, g.misalignment, g.bias, dt),
    ) {
        (Ok(d_v), Ok(d_theta)) => Ok(ImuMeasurement { t: meas.t, d_v, d_theta }),
        _ => Err(NavError::OutOfRange),
    }
}

/// Corrects one sensor's increment for scale factor, misalignment and bias.
pub fn correct_sensor(
    raw: &Vector3,
    scale_factor: &Vector3,
    misalignment: &Vector6,
    bias: &Vector3,
    dt: i64,
) -> (r: Result<Vector3, NavError>)
    ensures
        r == spec_correct_sensor(*raw, *scale_factor, *misalignment, *bias, dt),
{
    let fraction: Vector3 = Vector3::new(
        ratio(scale_factor.x, PARTS_PER_UNIT)?,
        ratio(scale_factor.y, PARTS_PER_UNIT)?,
        ratio(scale_factor.z, PARTS_PER_UNIT)?,
    );
    let sf: Matrix3 = Matrix3::identity().plus(&Matrix3::from_diagonal(&fraction))?;
    let mis: Matrix3 = Matrix3::new(
        ONE,
        misalignment.e0,
        misalignment.e1,
        misalignment.e2,
        ONE,
        misalignment.e3,
        misalignment.e4,
        misalignment.e5,
        ONE,
    );
    let compensation: Matrix3 = sf.times(&mis)?;
    let drift: Vector3 = bias.scaled(dt)?;
    let unbiased: Vector3 = raw.minus(&drift)?;
    compensation.times_vec(&unbiased)
}

/// Corrects an IMU measurement given an error model.
///
/// * `meas` - a timestamped IMU measurement
/// * `error` - an IMU error model
/// * `dt` - the time over which the bias acted (s)
///
/// The timestamp passes through. `dt` is taken as given. A correction
/// within the envelope succeeds, and so does every correction of stored
/// increments with the error-free model, which returns the measurement.
pub fn correct_imu(meas: &ImuMeasurement, error: &ImuError, dt: i64) -> (r: Result<
    ImuMeasurement,
    NavError,
>)
    ensures
        r == spec_correct_imu(*meas, *error, dt),
        r matches Ok(c) ==> c.t == meas.t,
        r matches Err(e) ==> e == NavError::OutOfRange,
        imu_in_correction_envelope(*meas, *error, dt) ==> r is Ok,
        *error == ImuError::spec_zero() && meas.d_v@.fits() && meas.d_theta@.fits() ==> r == Ok::<
            ImuMeasurement,
            NavError,
        >(*meas),
{
    proof {
        if imu_in_correction_envelope(*meas, *error, dt) {
            lemma_correct_imu_succeeds(*meas, *error, dt);
        }
        if *error == ImuError::spec_zero() && meas.d_v@.fits() && meas.d_theta@.fits() {
            lemma_correct_imu_zero_error(*meas, dt);
        }
    }
    let d_v: Vector3 = correct_sensor(
        &meas.d_v,
        &error.accelerometer_error.scale_factor,
        &error.accelerometer_error.misalignment,
        &error.accelerometer_error.bias,
        dt,
    )?;
    let d_theta: Vector3 = correct_sensor(
        &meas.d_theta,
        &error.gyroscope_error.scale_factor,
        &error.gyroscope_error.misalignment,
        &error.gyroscope_error.bias,
        dt,
    )?;
    Ok(ImuMeasurement { t: meas.t, d_v, d_theta })
}

/// The largest increment (m/s or rad), along each axis, of the envelope in
/// which a correction is sure to succeed.
pub const ENVELOPE_INCREMENT: i64 = 1_000_000_000_000_000_000;

/// The envelope's largest bias (m/s^2 or rad/s), along each axis.
pub const ENVELOPE_BIAS: i64 = 1_000_000_000_000_000;

/// The envelope's largest scale factor (ppm), along each axis.
pub const ENVELOPE_SCALE_FACTOR: i64 = 1_000_000_000_000_000_000;

/// The envelope of one sensor's correction: an interval of at most a
/// second either way, misalignment terms of at most one, and increment,
/// bias and scale factor within the `ENVELOPE_` constants.
pub open spec fn in_correction_envelope(
    raw: Vector3,
    ppm: Vector3,
    m: Vector6,
    bias: Vector3,
    dt: i64,
) -> bool {
    &&& -ONE <= dt <= ONE
    &&& raw@.within(ENVELOPE_INCREMENT as int)
    &&& ppm@.within(ENVELOPE_SCALE_FACTOR as int)
    &&& bias@.within(ENVELOPE_BIAS as int)
    &&& misalignment_value(m).within(ONE as int)
}

/// Whether both sensors' corrections lie within the envelope.
pub open spec fn imu_in_correction_envelope(
    meas: ImuMeasurement,
    error: ImuError,
    dt: i64,
) -> bool {
    let a = error.accelerometer_error;
    let g = error.gyroscope_error;
    &&& in_correction_envelope(meas.d_v, a.scale_factor, a.misalignment, a.bias, dt)
    &&& in_correction_envelope(meas.d_theta, g.scale_factor, g.misalignment, g.bias, dt)
}

/// A sensor's correction within the envelope succeeds.
pub proof fn lemma_correct_sensor_succeeds(
    raw: Vector3,
    ppm: Vector3,
    m: Vector6,
    bias: Vector3,
    dt: i64,
)
    requires
        in_correction_envelope(raw, ppm, m, bias, dt),
    ensures
        spec_correct_sensor(raw, ppm, m, bias, dt) is Ok,
{
    let limit = ENVELOPE_SCALE_FACTOR as int;
    assert(limit == ONE * PARTS_PER_UNIT);
    lemma_round_div_range(magnitude(ppm.x as int), PARTS_PER_UNIT as int, ONE as int);
    lemma_round_div_range(magnitude(ppm.y as int), PARTS_PER_UNIT as int, ONE as int);
    lemma_round_div_range(magnitude(ppm.z as int), PARTS_PER_UNIT as int, ONE as int);
    let fraction = fraction_value(ppm@);
    assert(fraction.within(ONE as int));
    let sf = scale_factor_value(ppm@);
    let mis = misalignment_value(m);
    assert(sf.within(2 * ONE));
    lemma_product_value_units(mis.r0.x);
    lemma_product_value_units(mis.r0.y);
    lemma_product_value_units(mis.r0.z);
    lemma_product_value_units(mis.r1.x);
    lemma_product_value_units(mis.r1.y);
    lemma_product_value_units(mis.r1.z);
    lemma_product_value_units(mis.r2.x);
    lemma_product_value_units(mis.r2.y);
    lemma_product_value_units(mis.r2.z);
    lemma_product_value_bound(mis.r0.x, sf.r0.x, ONE as int, 2);
    lemma_product_value_bound(mis.r0.y, sf.r0.x, ONE as int, 2);
    lemma_product_value_bound(mis.r0.z, sf.r0.x, ONE as int, 2);
    lemma_product_value_bound(mis.r1.x, sf.r1.y, ONE as int, 2);
    lemma_product_value_bound(mis.r1.y, sf.r1.y, ONE as int, 2);
    lemma_product_value_bound(mis.r1.z, sf.r1.y, ONE as int, 2);
    lemma_product_value_bound(mis.r2.x, sf.r2.z, ONE as int, 2);
    lemma_product_value_bound(mis.r2.y, sf.r2.z, ONE as int, 2);
    lemma_product_value_bound(mis.r2.z, sf.r2.z, ONE as int, 2);
    lemma_product_value_symmetric(mis.r0.x, sf.r0.x);
    lemma_product_value_symmetric(mis.r0.y, sf.r0.x);
    lemma_product_value_symmetric(mis.r0.z, sf.r0.x);
    lemma_product_value_symmetric(mis.r1.x, sf.r1.y);
    lemma_product_value_symmetric(mis.r1.y, sf.r1.y);
    lemma_product_value_symmetric(mis.r1.z, sf.r1.y);
    lemma_product_value_symmetric(mis.r2.x, sf.r2.z);
    lemma_product_value_symmetric(mis.r2.y, sf.r2.z);
    lemma_product_value_symmetric(mis.r2.z, sf.r2.z);
    let compensation = compensation_value(ppm@, m);
    assert(compensation.within(2 * ONE));
    lemma_scaled_within(bias@, dt as int, ENVELOPE_BIAS as int, 1);
    let unbiased = raw@.minus(drift_value(bias@, dt as int));
    lemma_times_vec_within(compensation, unbiased, 2, ENVELOPE_INCREMENT + ENVELOPE_BIAS);
}

/// A correction succeeds whenever both sensors' lie within the envelope.
pub proof fn lemma_correct_imu_succeeds(meas: ImuMeasurement, error: ImuError, dt: i64)
    requires
        imu_in_correction_envelope(meas, error, dt),
    ensures
        spec_correct_imu(meas, error, dt) is Ok,
{
    let a = error.accelerometer_error;
    let g = error.gyroscope_error;
    lemma_correct_sensor_succeeds(meas.d_v, a.scale_factor, a.misalignment, a.bias, dt);
    lemma_correct_sensor_succeeds(meas.d_theta, g.scale_factor, g.misalignment, g.bias, dt);
}

/// One sensor's correction with no error returns the increment.
proof fn lemma_correct_sensor_zero_error(raw: Vector3, dt: i64)
    requires
        raw@.fits(),
    ensures
        spec_correct_sensor(
            raw,
            Vector3 { x: 0, y: 0, z: 0 },
            Vector6 { e0: 0, e1: 0, e2: 0, e3: 0, e4: 0, e5: 0 },
            Vector3 { x: 0, y: 0, z: 0 },
            dt,
        ) == Ok::<Vector3, NavError>(raw),
{
    let zero = Vec3 { x: 0, y: 0, z: 0 };
    let none = Vector6 { e0: 0, e1: 0, e2: 0, e3: 0, e4: 0, e5: 0 };
    lemma_round_div_odd(0, PARTS_PER_UNIT as int);
    lemma_product_value_units(0);
    lemma_product_value_units(ONE as int);
    lemma_product_value_units(dt as int);
    lemma_product_value_units(raw.x as int);
    lemma_product_value_units(raw.y as int);
    lemma_product_value_units(raw.z as int);
    assert(fraction_value(zero) == zero);
    assert(scale_factor_value(zero) == Mat3::identity());
    assert(misalignment_value(none) == Mat3::identity());
    assert(compensation_value(zero, none) == Mat3::identity());
    assert(drift_value(zero, dt as int) == zero);
    assert(raw@.minus(zero) == raw@);
    assert(corrected_value(raw@, zero, none, zero, dt as int) == raw@);
    assert(raw@.narrow() == raw);
}

/// Correcting with the error-free model returns the measurement unchanged,
/// whatever `dt`, for every measurement whose increments are stored values.
pub proof fn lemma_correct_imu_zero_error(meas: ImuMeasurement, dt: i64)
    requires
        meas.d_v@.fits(),
        meas.d_theta@.fits(),
    ensures
        spec_correct_imu(meas, ImuError::spec_zero(), dt) == Ok::<ImuMeasurement, NavError>(meas),
{
    lemma_correct_sensor_zero_error(meas.d_v, dt);
    lemma_correct_sensor_zero_error(meas.d_theta, dt);
}

} // verus!
