use strapdown::fixed::ONE;
use strapdown::linalg::{Vector3, Vector6};
use strapdown::types::{
    AccelerometerError, GyroscopeError, ImuError, ImuMeasurement, NavError,
};
use strapdown::utilities::{correct_imu, correct_sensor};

fn sample() -> ImuMeasurement {
    ImuMeasurement {
        t: 1_700_000_000_000_000_000,
        d_v: Vector3::new(500_000_000_000, -250_000_000_000, ONE),
        d_theta: Vector3::new(3_000_000_000, 1_000_000_000, -2_000_000_000),
    }
}

fn model() -> ImuError {
    ImuError {
        accelerometer_error: AccelerometerError {
            scale_factor: Vector3::new(1_000 * ONE, -2_000 * ONE, 0),
            misalignment: Vector6::new(
                1_000_000_000,
                2_000_000_000,
                -1_000_000_000,
                3_000_000_000,
                0,
                -2_000_000_000,
            ),
            bias: Vector3::new(10_000_000_000, 20_000_000_000, -30_000_000_000),
        },
        gyroscope_error: GyroscopeError {
            scale_factor: Vector3::new(0, 500 * ONE, 250 * ONE),
            misalignment: Vector6::new(0, 0, 0, 0, 500_000_000, 0),
            bias: Vector3::new(-1_000_000_000, 0, 1_000_000_000),
        },
    }
}

#[test]
fn zero_error_model_is_the_identity() {
    let zero = ImuError::zero();
    for dt in [1, ONE / 100, ONE, 1_000 * ONE, i64::MAX, -ONE, 0] {
        assert_eq!(correct_imu(&sample(), &zero, dt), Ok(sample()));
    }
    let extreme = ImuMeasurement {
        t: i64::MIN,
        d_v: Vector3::new(i64::MAX, -i64::MAX, 0),
        d_theta: Vector3::new(1, -1, i64::MAX),
    };
    assert_eq!(correct_imu(&extreme, &zero, ONE), Ok(extreme));
    assert_eq!(ImuError::default(), zero);
}

#[test]
fn correction_applies_scale_misalignment_and_bias() {
    let dt = ONE / 10;
    let corrected = correct_imu(&sample(), &model(), dt).unwrap();
    assert_eq!(corrected.t, sample().t);
    assert_eq!(corrected.d_v, Vector3::new(501_254_754_000, -248_991_020_000, 1_003_504_000_000));
    assert_eq!(corrected.d_theta, Vector3::new(3_100_000_000, 1_000_500_000, -2_098_974_612));
}

#[test]
fn correction_terms_one_at_a_time() {
    let raw = sample().d_v;
    let m = model().accelerometer_error;
    let none = Vector3::zeros();
    let dt = ONE / 10;
    assert_eq!(
        correct_sensor(&raw, &none, &Vector6::zeros(), &m.bias, dt),
        Ok(Vector3::new(499_000_000_000, -252_000_000_000, 1_003_000_000_000))
    );
    assert_eq!(
        correct_sensor(&raw, &m.scale_factor, &Vector6::zeros(), &none, dt),
        Ok(Vector3::new(500_500_000_000, -249_500_000_000, ONE))
    );
    assert_eq!(
        correct_sensor(&raw, &none, &m.misalignment, &none, dt),
        Ok(Vector3::new(501_750_000_000, -247_500_000_000, 1_000_500_000_000))
    );
}

#[test]
fn correction_out_of_range() {
    let mut big = sample();
    big.d_v = Vector3::new(i64::MAX, 0, 0);
    assert_eq!(correct_imu(&big, &model(), ONE), Err(NavError::OutOfRange));
    let mut unstorable = sample();
    unstorable.d_theta = Vector3::new(0, i64::MIN, 0);
    assert_eq!(correct_imu(&unstorable, &ImuError::zero(), ONE), Err(NavError::OutOfRange));
}
