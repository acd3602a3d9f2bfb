use strapdown::fixed::ONE;
use strapdown::linalg::{Matrix3, Vector3, Vector6};
use strapdown::navigation::Navigation;
use strapdown::strapdown::Strapdown;
use strapdown::types::{
    AccelerometerError, Angle, GyroscopeError, ImuError, ImuMeasurement, NavError, NavState,
};
use strapdown::utilities::correct_imu;

fn start() -> Strapdown {
    Strapdown::new(
        0,
        NavState {
            position: Vector3::new(6_378_137 * ONE, 0, 0),
            velocity: Vector3::zeros(),
            body_to_ecef: Matrix3::identity(),
        },
    )
}

fn biased() -> ImuError {
    ImuError {
        accelerometer_error: AccelerometerError {
            scale_factor: Vector3::new(1_000 * ONE, 0, 0),
            misalignment: Vector6::zeros(),
            bias: Vector3::new(ONE / 100, 0, 0),
        },
        gyroscope_error: GyroscopeError {
            scale_factor: Vector3::zeros(),
            misalignment: Vector6::zeros(),
            bias: Vector3::new(0, 0, ONE / 1_000),
        },
    }
}

fn sample(t: i64) -> ImuMeasurement {
    ImuMeasurement {
        t,
        d_v: Vector3::new(20_000_000_000, 0, -10_000_000_000),
        d_theta: Vector3::new(0, 0, 1_000_000_000),
    }
}

fn sin_cos(angle: i64) -> Angle {
    let a = angle as f64 / ONE as f64;
    Angle {
        sin: (a.sin() * ONE as f64).round() as i64,
        cos: (a.cos() * ONE as f64).round() as i64,
    }
}

#[test]
fn new_uses_the_error_free_model() {
    let n = Navigation::new(7, start());
    assert_eq!(n.t, 7);
    assert_eq!(n.strapdown, start());
    assert_eq!(n.imu_error, ImuError::zero());
    assert_eq!(n.imu_error(), ImuError::zero());
    assert_eq!(n.nav_state(), start().nav_state);
}

#[test]
fn with_imu_error_keeps_the_model() {
    let n = Navigation::with_imu_error(7, start(), biased());
    assert_eq!(n.t, 7);
    assert_eq!(n.strapdown, start());
    assert_eq!(n.imu_error, biased());
}

#[test]
fn integrate_corrects_then_integrates() {
    let mut n = Navigation::with_imu_error(0, start(), biased());
    let raw = sample(10_000_000);
    let corrected = correct_imu(&raw, &biased(), ONE / 100).unwrap();
    assert_eq!(corrected.d_theta, Vector3::new(0, 0, 990_000_000));
    assert_eq!(corrected.d_v, Vector3::new(19_919_900_000, 0, -10_000_000_000));
    let mut expected = start();
    let angle = expected.rotation_angle(&corrected).unwrap();
    assert_eq!(n.rotation_angle(&raw), Ok(angle));
    let gravity = Vector3::new(-9_800_000_000_000, 0, 0);
    assert_eq!(expected.integrate(&corrected, &gravity, &sin_cos(angle)), Ok(()));
    assert_eq!(n.integrate(&raw, &gravity, &sin_cos(angle)), Ok(()));
    assert_eq!(n.strapdown, expected);
    assert_eq!(n.nav_state(), expected.nav_state);
    assert_eq!(n.t, 10_000_000);
    assert_eq!(n.imu_error, biased());
}

#[test]
fn integrate_with_the_error_free_model_is_the_strapdown() {
    let mut n = Navigation::new(0, start());
    let mut s = start();
    let gravity = Vector3::zeros();
    for i in 1..=5 {
        let raw = sample(i * 10_000_000);
        let angle = s.rotation_angle(&raw).unwrap();
        assert_eq!(n.rotation_angle(&raw), Ok(angle));
        assert_eq!(s.integrate(&raw, &gravity, &sin_cos(angle)), Ok(()));
        assert_eq!(n.integrate(&raw, &gravity, &sin_cos(angle)), Ok(()));
        assert_eq!(n.strapdown, s);
    }
}

#[test]
fn failed_integrate_leaves_the_object_untouched() {
    let mut n = Navigation::with_imu_error(1_000, start(), biased());
    let before = n;
    let rotation = Angle { sin: 0, cos: ONE };
    assert_eq!(
        n.integrate(&sample(1_000), &Vector3::zeros(), &rotation),
        Err(NavError::InvalidTimestep)
    );
    assert_eq!(n, before);
    assert_eq!(n.rotation_angle(&sample(999)), Err(NavError::InvalidTimestep));
    let mut huge = sample(2_000);
    huge.d_v = Vector3::new(i64::MAX, 0, 0);
    assert_eq!(n.integrate(&huge, &Vector3::zeros(), &rotation), Err(NavError::OutOfRange));
    assert_eq!(n, before);
    // The navigation clock is ahead of the strapdown's: the strapdown's own
    // check passes, the navigation's must not.
    assert_eq!(n.strapdown.t, 0);
    assert_eq!(
        n.integrate(&sample(500), &Vector3::zeros(), &rotation),
        Err(NavError::InvalidTimestep)
    );
    assert_eq!(n, before);
}

#[test]
fn a_filter_can_replace_the_error_model() {
    let mut n = Navigation::new(0, start());
    n.set_imu_error(biased());
    assert_eq!(n.imu_error(), biased());
    assert_eq!(n.strapdown, start());
    assert_eq!(n.t, 0);
}

#[test]
fn defaults_are_at_rest_at_the_origin() {
    let n = Navigation::default();
    assert_eq!(n.t, 0);
    assert_eq!(n.imu_error, ImuError::zero());
    assert_eq!(n.strapdown, Strapdown::default());
    assert_eq!(n.strapdown, Strapdown::new(0, NavState::default()));
    let state = NavState::default();
    assert_eq!(state.position, Vector3::zeros());
    assert_eq!(state.velocity, Vector3::zeros());
    assert_eq!(state.body_to_ecef, Matrix3::identity());
    assert_eq!(
        ImuMeasurement::default(),
        ImuMeasurement { t: 0, d_v: Vector3::zeros(), d_theta: Vector3::zeros() }
    );
    assert_eq!(GyroscopeError::default(), GyroscopeError::zero());
    assert_eq!(AccelerometerError::default(), AccelerometerError::zero());
}

#[test]
fn advance_corrects_then_advances_the_strapdown() {
    let mut n = Navigation::with_imu_error(0, start(), biased());
    let raw = sample(10_000_000);
    let corrected = correct_imu(&raw, &biased(), ONE / 100).unwrap();
    let mut expected = start();
    let angle = expected.rotation_angle(&corrected).unwrap();
    let gravity = Vector3::new(-9_800_000_000_000, 0, 0);
    let drift = expected.advance(&corrected, &gravity, &sin_cos(angle));
    assert!(drift.is_ok());
    assert_eq!(n.advance(&raw, &gravity, &sin_cos(angle)), drift);
    assert_eq!(n.strapdown, expected);
    assert_eq!(n.t, 10_000_000);
    assert_eq!(n.imu_error, biased());
    let before = n;
    assert_eq!(n.advance(&raw, &gravity, &sin_cos(angle)), Err(NavError::InvalidTimestep));
    let bad = Angle { sin: ONE, cos: ONE };
    assert_eq!(n.advance(&sample(20_000_000), &gravity, &bad), Err(NavError::InvalidRotation));
    assert_eq!(n.integrate(&sample(20_000_000), &gravity, &bad), Err(NavError::InvalidRotation));
    assert_eq!(n, before);
}
