//! Navigation types.
use crate::fixed::checked;
use crate::fixed::narrow;
use crate::fixed::square_of;
use crate::fixed::ONE;
use crate::linalg::Matrix3;
use crate::linalg::Vector3;
use crate::linalg::Vector6;
use vstd::prelude::*;

verus! {

/// Why an operation produced no value.
#[derive(Debug, Clone, Copy, PartialEq, Eq, Structural)]
pub enum NavError {
    /// A sample's timestamp is not later than the time already integrated to.
    InvalidTimestep,
    /// A value of the computation cannot be stored: it is too large, a
    /// quotient by zero, or the root of a negative number.
    OutOfRange,
    /// The sine and cosine passed for the step's rotation belong to no
    /// angle: one of them lies beyond one, or their squares do not add up
    /// to one.
    InvalidRotation,
    /// The attitude is so far from orthonormal that renormalizing does not
    /// bring its drift measure back under the limit.
    Drifted,
}

/// Timestamps count nanoseconds; there are this many in a second.
pub const TICKS_PER_SECOND: i64 = 1_000_000_000;

/// The stored value of one nanosecond, in seconds.
pub const UNITS_PER_TICK: i64 = 1_000;

/// The time from one timestamp to a later one, as a stored value in seconds.
pub open spec fn spec_interval(from: i64, to: i64) -> Result<i64, NavError> {
    if to <= from {
        Err(NavError::InvalidTimestep)
    } else {
        checked((to - from) * UNITS_PER_TICK)
    }
}

/// The time from `from` to `to`, in seconds.
///
/// A timestamp that does not advance is an invalid timestep; an interval too
/// long to store is out of range.
pub fn interval(from: i64, to: i64) -> (r: Result<i64, NavError>)
    ensures
        r == spec_interval(from, to),
{
    if to <= from {
        Err(NavError::InvalidTimestep)
    } else {
        let ticks: i128 = to as i128 - from as i128;
        let unit: i128 = UNITS_PER_TICK as i128;
        assert(0 <= ticks * unit <= 0x1_0000_0000_0000_0000 * 1_000) by (nonlinear_arith)
            requires
                0 <= ticks <= 0x1_0000_0000_0000_0000,
                unit == 1_000,
        ;
        narrow(ticks * unit)
    }
}

/// IMU measurement: one integrated interval.
///
/// * `t` - timestamp, nanoseconds since the UTC epoch
/// * `d_v` - 3-axis change in velocity over the interval (m/s)
/// * `d_theta` - 3-axis change in orientation over the interval (rad)
#[derive(Debug, Clone, Copy, PartialEq, Eq, Structural)]
pub struct ImuMeasurement {
    pub t: i64,
    pub d_v: Vector3,
    pub d_theta: Vector3,
}

/// Gyroscope error model:
/// d_theta_corrected = (I + diag(scale_factor)) * misalignment * (d_theta - bias*dt).
///
/// * `scale_factor` - 3-axis scale factor error (ppm)
/// * `misalignment` - the six off-diagonal terms, row by row
/// * `bias` - 3-axis bias (rad/s)
#[derive(Debug, Clone, Copy, PartialEq, Eq, Structural)]
pub struct GyroscopeError {
    pub scale_factor: Vector3,
    pub misalignment: Vector6,
    pub bias: Vector3,
}

/// Accelerometer error model:
/// d_v_corrected = (I + diag(scale_factor)) * misalignment * (d_v - bias*dt).
///
/// * `scale_factor` - 3-axis scale factor error (ppm)
/// * `misalignment` - the six off-diagonal terms, row by row
/// * `bias` - 3-axis bias (m/s^2)
#[derive(Debug, Clone, Copy, PartialEq, Eq, Structural)]
pub struct AccelerometerError {
    pub scale_factor: Vector3,
    pub misalignment: Vector6,
    pub bias: Vector3,
}

/// IMU error model: the gyroscope's and the accelerometer's.
#[derive(Debug, Clone, Copy, PartialEq, Eq, Structural)]
pub struct ImuError {
    pub accelerometer_error: AccelerometerError,
    pub gyroscope_error: GyroscopeError,
}

/// 6-DOF navigation state with respect to the ECEF frame.
///
/// * `position` - ECEF position (m)
/// * `velocity` - ECEF velocity (m/s)
/// * `body_to_ecef` - direction cosine matrix from the IMU body frame to ECEF
#[derive(Debug, Clone, Copy, PartialEq, Eq, Structural)]
pub struct NavState {
    pub position: Vector3,
    pub velocity: Vector3,
    pub body_to_ecef: Matrix3,
}

/// An angle, held by its sine and cosine.
#[derive(Debug, Clone, Copy, PartialEq, Eq, Structural)]
pub struct Angle {
    pub sin: i64,
    pub cos: i64,
}

/// A geodetic position on the WGS84 ellipsoid.
///
/// * `lat` - geodetic latitude
/// * `lon` - longitude
/// * `alt` - height above the ellipsoid (m)
#[derive(Debug, Clone, Copy, PartialEq, Eq, Structural)]
pub struct Geodetic {
    pub lat: Angle,
    pub lon: Angle,
    pub alt: i64,
}

impl Angle {
    /// Whether sine and cosine both lie between minus one and one.
    pub open spec fn bounded(self) -> bool {
        -ONE <= self.sin <= ONE && -ONE <= self.cos <= ONE
    }

    /// Whether the squares of sine and cosine add up to one, to within four
    /// units in the last place of a stored value: as they do for the
    /// rounded sine and cosine of any angle.
    pub open spec fn unit(self) -> bool {
        let sum = self.sin * self.sin + self.cos * self.cos;
        ONE * ONE - 4 * ONE <= sum <= ONE * ONE + 4 * ONE
    }

    /// Whether these are the sine and cosine of an angle, as far as stored
    /// values tell: bounded and unit.
    pub open spec fn valid(self) -> bool {
        self.bounded() && self.unit()
    }

    /// Whether these are the sine and cosine of an angle.
    pub fn is_valid(&self) -> (r: bool)
        ensures
            r == self.valid(),
    {
        self.is_bounded() && self.is_unit()
    }

    /// Whether sine and cosine both lie between minus one and one.
    pub fn is_bounded(&self) -> (r: bool)
        ensures
            r == self.bounded(),
    {
        -ONE <= self.sin && self.sin <= ONE && -ONE <= self.cos && self.cos <= ONE
    }

    /// Whether the squares of sine and cosine add up to one, to within four
    /// units in the last place.
    pub fn is_unit(&self) -> (r: bool)
        ensures
            r == self.unit(),
    {
        let sum: u128 = square_of(self.sin) + square_of(self.cos);
        let one: u128 = 1_000_000_000_000_000_000_000_000;
        let slack: u128 = 4_000_000_000_000;
        assert(ONE * ONE == one && 4 * ONE == slack) by (nonlinear_arith)
            requires
                ONE == 1_000_000_000_000,
                one == 1_000_000_000_000_000_000_000_000,
                slack == 4_000_000_000_000,
        ;
        one - slack <= sum && sum <= one + slack
    }
}

impl Geodetic {
    /// Whether latitude and longitude are bounded angles.
    pub open spec fn bounded(self) -> bool {
        self.lat.bounded() && self.lon.bounded()
    }
}

impl GyroscopeError {
    /// The model of an error-free gyroscope.
    pub open spec fn spec_zero() -> GyroscopeError {
        GyroscopeError {
            scale_factor: Vector3 { x: 0, y: 0, z: 0 },
            misalignment: Vector6 { e0: 0, e1: 0, e2: 0, e3: 0, e4: 0, e5: 0 },
            bias: Vector3 { x: 0, y: 0, z: 0 },
        }
    }

    /// The model of an error-free gyroscope.
    pub fn zero() -> (r: GyroscopeError)
        ensures
            r == GyroscopeError::spec_zero(),
    {
        GyroscopeError {
            scale_factor: Vector3::zeros(),
            misalignment: Vector6::zeros(),
            bias: Vector3::zeros(),
        }
    }
}

impl AccelerometerError {
    /// The model of an error-free accelerometer.
    pub open spec fn spec_zero() -> AccelerometerError {
        AccelerometerError {
            scale_factor: Vector3 { x: 0, y: 0, z: 0 },
            misalignment: Vector6 { e0: 0, e1: 0, e2: 0, e3: 0, e4: 0, e5: 0 },
            bias: Vector3 { x: 0, y: 0, z: 0 },
        }
    }

    /// The model of an error-free accelerometer.
    pub fn zero() -> (r: AccelerometerError)
        ensures
            r == AccelerometerError::spec_zero(),
    {
        AccelerometerError {
            scale_factor: Vector3::zeros(),
            misalignment: Vector6::zeros(),
            bias: Vector3::zeros(),
        }
    }
}

impl ImuError {
    /// The model of an error-free IMU.
    pub open spec fn spec_zero() -> ImuError {
        ImuError {
            accelerometer_error: AccelerometerError::spec_zero(),
            gyroscope_error: GyroscopeError::spec_zero(),
        }
    }

    /// The model of an error-free IMU.
    pub fn zero() -> (r: ImuError)
        ensures
            r == ImuError::spec_zero(),
    {
        ImuError {
            accelerometer_error: AccelerometerError::zero(),
            gyroscope_error: GyroscopeError::zero(),
        }
    }
}

impl Default for GyroscopeError {
    fn default() -> (r: GyroscopeError)
        ensures
            r == GyroscopeError::spec_zero(),
    {
        GyroscopeError::zero()
    }
}

impl Default for AccelerometerError {
    fn default() -> (r: AccelerometerError)
        ensures
            r == AccelerometerError::spec_zero(),
    {
        AccelerometerError::zero()
    }
}

impl Default for ImuError {
    fn default() -> (r: ImuError)
        ensures
            r == ImuError::spec_zero(),
    {
        ImuError::zero()
    }
}

impl Default for ImuMeasurement {
    /// The measurement at time zero with no increment.
    fn default() -> (r: ImuMeasurement)
        ensures
            r == (ImuMeasurement {
                t: 0,
                d_v: Vector3 { x: 0, y: 0, z: 0 },
                d_theta: Vector3 { x: 0, y: 0, z: 0 },
            }),
    {
        ImuMeasurement { t: 0, d_v: Vector3::zeros(), d_theta: Vector3::zeros() }
    }
}

impl NavState {
    /// The state at rest at the centre of the Earth, body axes along ECEF's.
    pub open spec fn spec_origin() -> NavState {
        NavState {
            position: Vector3 { x: 0, y: 0, z: 0 },
            velocity: Vector3 { x: 0, y: 0, z: 0 },
            body_to_ecef: Matrix3 {
                r0: Vector3 { x: ONE, y: 0, z: 0 },
                r1: Vector3 { x: 0, y: ONE, z: 0 },
                r2: Vector3 { x: 0, y: 0, z: ONE },
            },
        }
    }
}

impl Default for NavState {
    /// At rest at the origin, with the identity as attitude.
    fn default() -> (r: NavState)
        ensures
            r == NavState::spec_origin(),
    {
        NavState {
            position: Vector3::zeros(),
            velocity: Vector3::zeros(),
            body_to_ecef: Matrix3::new(ONE, 0, 0, 0, ONE, 0, 0, 0, ONE),
        }
    }
}

/// A second of ticks is the stored value of one second.
pub proof fn lemma_time_units()
    ensures
        UNITS_PER_TICK * TICKS_PER_SECOND == ONE,
{
    assert(UNITS_PER_TICK * TICKS_PER_SECOND == ONE) by (nonlinear_arith)
        requires
            UNITS_PER_TICK == 1_000,
            TICKS_PER_SECOND == 1_000_000_000,
            ONE == 1_000_000_000_000,
    ;
}

} // verus!
