//! The top level navigation object.
use crate::linalg::Vector3;
use crate::strapdown::in_step_envelope;
use crate::strapdown::DRIFT_LIMIT;
use crate::strapdown::spec_orthonormality_error;
use crate::strapdown::lemma_integrate_succeeds;
use crate::strapdown::Strapdown;
use crate::types::interval;
use crate::types::spec_interval;
use crate::types::Angle;
use crate::types::ImuError;
use crate::types::ImuMeasurement;
use crate::types::NavError;
use crate::types::NavState;
use crate::utilities::correct_imu;
use crate::utilities::lemma_correct_imu_zero_error;
use crate::utilities::spec_correct_imu;
use vstd::prelude::*;

verus! {

/// Navigation: the strapdown state and the current best estimate of the IMU
/// errors. Each measurement is compensated with the error model and then
/// integrated.
///
/// * `t` - timestamp, nanoseconds since the UTC epoch
/// * `strapdown` - the strapdown integrator, holding the navigation state
/// * `imu_error` - IMU error model parameters
#[derive(Debug, Clone, Copy, PartialEq, Eq, Structural)]
pub struct Navigation {
    pub t: i64,
    pub strapdown: Strapdown,
    pub imu_error: ImuError,
}

impl Default for Navigation {
    /// At time zero, with the default strapdown and the error-free model.
    fn default() -> (r: Navigation)
        ensures
            r == (Navigation {
                t: 0,
                strapdown: Strapdown::spec_origin(),
                imu_error: ImuError::spec_zero(),
            }),
    {
        Navigation::new(0, Strapdown::default())
    }
}

impl Navigation {
    /// The measurement compensated for the interval since the last one, or
    /// the error.
    pub open spec fn spec_corrected(self, imu: ImuMeasurement) -> Result<ImuMeasurement, NavError> {
        match spec_interval(self.t, imu.t) {
            Ok(dt) => spec_correct_imu(imu, self.imu_error, dt),
            Err(e) => Err(e),
        }
    }

    /// The navigation object after integrating `imu`, or the error.
    pub open spec fn spec_integrate(
        self,
        imu: ImuMeasurement,
        gravity: Vector3,
        rotation: Angle,
    ) -> Result<Navigation, NavError> {
        match self.spec_corrected(imu) {
            Ok(corrected) => match self.strapdown.spec_integrate(corrected, gravity, rotation) {
                Ok(strapdown) => Ok(Navigation { t: imu.t, strapdown, imu_error: self.imu_error }),
                Err(e) => Err(e),
            },
            Err(e) => Err(e),
        }
    }

    /// The navigation object after advancing over `imu`, with the drift
    /// measure of the attitude it then holds; or the error.
    pub open spec fn spec_advance(
        self,
        imu: ImuMeasurement,
        gravity: Vector3,
        rotation: Angle,
    ) -> Result<(Navigation, i64), NavError> {
        match self.spec_corrected(imu) {
            Ok(corrected) => match self.strapdown.spec_advance(corrected, gravity, rotation) {
                Ok(done) => Ok(
                    (Navigation { t: imu.t, strapdown: done.0, imu_error: self.imu_error }, done.1),
                ),
                Err(e) => Err(e),
            },
            Err(e) => Err(e),
        }
    }

    /// The angle that integrating `imu` would turn the body through, or the
    /// error.
    pub open spec fn spec_rotation_angle(self, imu: ImuMeasurement) -> Result<i64, NavError> {
        match self.spec_corrected(imu) {
            Ok(corrected) => self.strapdown.spec_rotation_angle(corrected),
            Err(e) => Err(e),
        }
    }

    /// Initialization with the error-free error model.
    ///
    /// * `init_t` - timestamp, nanoseconds since the UTC epoch
    /// * `init_strapdown` - initial strapdown object
    pub fn new(init_t: i64, init_strapdown: Strapdown) -> (r: Navigation)
        ensures
            r == (Navigation {
                t: init_t,
                strapdown: init_strapdown,
                imu_error: ImuError::spec_zero(),
            }),
    {
        Navigation { t: init_t, strapdown: init_strapdown, imu_error: ImuError::zero() }
    }

    /// Initialization with an IMU error model.
    ///
    /// * `init_t` - timestamp, nanoseconds since the UTC epoch
    /// * `init_strapdown` - initial strapdown object
    /// * `init_imu_error` - initial IMU error model
    pub fn with_imu_error(init_t: i64, init_strapdown: Strapdown, init_imu_error: ImuError) -> (r:
        Navigation)
        ensures
            r == (Navigation { t: init_t, strapdown: init_strapdown, imu_error: init_imu_error }),
    {
        Navigation { t: init_t, strapdown: init_strapdown, imu_error: init_imu_error }
    }

    /// The current navigation state.
    pub fn nav_state(&self) -> (r: NavState)
        ensures
            r == self.strapdown.nav_state,
    {
        self.strapdown.nav_state
    }

    /// The current IMU error model.
    pub fn imu_error(&self) -> (r: ImuError)
        ensures
            r == self.imu_error,
    {
        self.imu_error
    }

    /// Replaces the IMU error model, as a filter would between measurements.
    pub fn set_imu_error(&mut self, imu_error: ImuError)
        ensures
            *final(self) == (Navigation { imu_error, ..*old(self) }),
    {
        self.imu_error = imu_error;
    }

    /// The angle (rad) that integrating `imu` turns the body through. Its
    /// sine and cosine are what `integrate` takes as `rotation`.
    pub fn rotation_angle(&self, imu: &ImuMeasurement) -> (r: Result<i64, NavError>)
        ensures
            r == self.spec_rotation_angle(*imu),
    {
        let dt: i64 = interval(self.t, imu.t)?;
        let corrected: ImuMeasurement = correct_imu(imu, &self.imu_error, dt)?;
        self.strapdown.rotation_angle(&corrected)
    }

    /// Integrates the current state given an IMU measurement and keeps the
    /// attitude's drift in hand: the measurement is compensated with the
    /// current error model, integrated by the strapdown, and the attitude
    /// is renormalized until its drift measure is at most the strapdown's
    /// `DRIFT_LIMIT`. Returns the drift measure of the attitude now held,
    /// which is at most that limit.
    ///
    /// * `imu` - a timestamped IMU measurement
    /// * `gravity` - gravity at the current position, in ECEF (m/s^2)
    /// * `rotation` - sine and cosine of `self.rotation_angle(imu)`
    ///
    /// A measurement that is not later than the last one is an invalid
    /// timestep. On an error the object is left as it was.
    pub fn advance(&mut self, imu: &ImuMeasurement, gravity: &Vector3, rotation: &Angle) -> (r:
        Result<i64, NavError>)
        ensures
            old(self).spec_advance(*imu, *gravity, *rotation) matches Ok(done) ==> r == Ok::<
                i64,
                NavError,
            >(done.1) && *final(self) == done.0,
            old(self).spec_advance(*imu, *gravity, *rotation) matches Err(e) ==> r == Err::<
                i64,
                NavError,
            >(e) && *final(self) == *old(self),
            imu.t <= old(self).t ==> r == Err::<i64, NavError>(NavError::InvalidTimestep),
            r == Err::<i64, NavError>(NavError::InvalidRotation) ==> !rotation.valid(),
            r is Ok ==> rotation.valid(),
            r is Ok ==> final(self).t == imu.t && final(self).strapdown.t == imu.t,
            r matches Ok(drift) ==> drift <= DRIFT_LIMIT && spec_orthonormality_error(
                final(self).strapdown.nav_state.body_to_ecef,
            ) == Ok::<i64, NavError>(drift),
            final(self).imu_error == old(self).imu_error,
    {
        let dt: i64 = interval(self.t, imu.t)?;
        let corrected: ImuMeasurement = correct_imu(imu, &self.imu_error, dt)?;
        let drift: i64 = self.strapdown.advance(&corrected, gravity, rotation)?;
        self.t = imu.t;
        Ok(drift)
    }

    /// Integrate the current state given an IMU measurement.
    ///
    /// The measurement is first compensated with the current error model
    /// over the time since the last measurement, then integrated by the
    /// strapdown.
    ///
    /// * `imu` - a timestamped IMU measurement
    /// * `gravity` - gravity at the current position, in ECEF (m/s^2)
    /// * `rotation` - sine and cosine of `self.rotation_angle(imu)`
    ///
    /// A measurement that is not later than the last one is an invalid
    /// timestep; a sine and cosine that belong to no angle are an invalid
    /// rotation. The step succeeds when the measurement can be corrected
    /// and the corrected one lies within the strapdown's envelope. On an
    /// error the object is left as it was.
    pub fn integrate(&mut self, imu: &ImuMeasurement, gravity: &Vector3, rotation: &Angle) -> (r:
        Result<(), NavError>)
        ensures
            old(self).spec_integrate(*imu, *gravity, *rotation) matches Ok(next) ==> r is Ok
                && *final(self) == next,
            old(self).spec_integrate(*imu, *gravity, *rotation) matches Err(e) ==> r == Err::<
                (),
                NavError,
            >(e) && *final(self) == *old(self),
            imu.t <= old(self).t ==> r == Err::<(), NavError>(NavError::InvalidTimestep),
            r == Err::<(), NavError>(NavError::InvalidRotation) ==> !rotation.valid(),
            r is Ok ==> rotation.valid(),
            r is Ok ==> final(self).t == imu.t && final(self).strapdown.t == imu.t,
            final(self).imu_error == old(self).imu_error,
            old(self).spec_corrected(*imu) matches Ok(corrected) && in_step_envelope(
                old(self).strapdown,
                corrected,
                *gravity,
                *rotation,
            ) ==> r is Ok,
    {
        proof {
            if let Ok(corrected) = self.spec_corrected(*imu) {
                if in_step_envelope(self.strapdown, corrected, *gravity, *rotation) {
                    lemma_integrate_succeeds(self.strapdown, corrected, *gravity, *rotation);
                }
            }
        }
        let dt: i64 = interval(self.t, imu.t)?;
        let corrected: ImuMeasurement = correct_imu(imu, &self.imu_error, dt)?;
        self.strapdown.integrate(&corrected, gravity, rotation)?;
        self.t = imu.t;
        Ok(())
    }
}

/// With the error-free model and the two clocks in step, integrating a
/// measurement of stored increments through the navigation object is
/// integrating it through the strapdown.
pub proof fn lemma_error_free_navigation(
    n: Navigation,
    imu: ImuMeasurement,
    gravity: Vector3,
    rotation: Angle,
)
    requires
        n.imu_error == ImuError::spec_zero(),
        n.t == n.strapdown.t,
        imu.d_v@.fits(),
        imu.d_theta@.fits(),
    ensures
        n.spec_integrate(imu, gravity, rotation) == match n.strapdown.spec_integrate(
            imu,
            gravity,
            rotation,
        ) {
            Ok(strapdown) => Ok(Navigation { t: imu.t, strapdown, imu_error: n.imu_error }),
            Err(e) => Err(e),
        },
        n.spec_rotation_angle(imu) == n.strapdown.spec_rotation_angle(imu),
{
    if let Ok(dt) = spec_interval(n.t, imu.t) {
        lemma_correct_imu_zero_error(imu, dt);
    }
}

} // verus!
