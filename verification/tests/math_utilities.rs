use strapdown::fixed::ONE;
use strapdown::linalg::{Matrix3, Vector3};
use strapdown::math::{fmod, skew, wrap_angle};
use strapdown::types::NavError;

#[test]
fn skew_lays_out_the_components() {
    let m = skew(&Vector3::new(1, 2, 3)).unwrap();
    assert_eq!(m, Matrix3::new(0, -3, 2, 3, 0, -1, -2, 1, 0));
    assert_eq!(m.transpose(), skew(&Vector3::new(-1, -2, -3)).unwrap());
}

#[test]
fn skew_of_the_unstorable_opposite() {
    assert_eq!(skew(&Vector3::new(i64::MIN, 0, 0)), Err(NavError::OutOfRange));
    assert_eq!(skew(&Vector3::new(0, i64::MIN, 0)), Err(NavError::OutOfRange));
    assert_eq!(skew(&Vector3::new(0, 0, i64::MIN)), Err(NavError::OutOfRange));
    assert!(skew(&Vector3::new(i64::MAX, -i64::MAX, 0)).is_ok());
}

#[test]
fn skew_times_vector_is_the_cross_product() {
    let vs = [
        Vector3::new(ONE, 2 * ONE, 3 * ONE),
        Vector3::new(-123_456_789_012, 987_654_321_098, 1),
        Vector3::new(0, 0, 72_921_159),
        Vector3::new(6_378_137 * ONE, -4_511_470_291_372_000_000, 333_333_333_333),
        Vector3::new(i64::MAX, 7, -5),
    ];
    for v in vs.iter() {
        for x in vs.iter() {
            let m = skew(v).unwrap();
            assert_eq!(m.times_vec(x), v.cross(x));
        }
    }
    assert_eq!(
        skew(&vs[0]).unwrap().times_vec(&Vector3::new(4 * ONE, -5 * ONE, 6 * ONE)),
        Ok(Vector3::new(27 * ONE, 6 * ONE, -13 * ONE))
    );
}

#[test]
fn fmod_takes_the_sign_of_the_numerator() {
    assert_eq!(fmod(7, 3), Ok(1));
    assert_eq!(fmod(-7, 3), Ok(-1));
    assert_eq!(fmod(7, -3), Ok(1));
    assert_eq!(fmod(-7, -3), Ok(-1));
    assert_eq!(fmod(6, 3), Ok(0));
    assert_eq!(fmod(5 * ONE / 2, ONE), Ok(ONE / 2));
    assert_eq!(fmod(i64::MIN, -1), Ok(0));
    assert_eq!(fmod(i64::MIN, i64::MAX), Ok(-1));
    assert_eq!(fmod(3, 0), Err(NavError::OutOfRange));
}

#[test]
fn wrap_angle_into_the_half_open_turn() {
    let half = 180 * ONE;
    assert_eq!(wrap_angle(0, half), Ok(0));
    assert_eq!(wrap_angle(180 * ONE, half), Ok(180 * ONE));
    assert_eq!(wrap_angle(-180 * ONE, half), Ok(180 * ONE));
    assert_eq!(wrap_angle(181 * ONE, half), Ok(-179 * ONE));
    assert_eq!(wrap_angle(-181 * ONE, half), Ok(179 * ONE));
    assert_eq!(wrap_angle(540 * ONE, half), Ok(180 * ONE));
    assert_eq!(wrap_angle(-540 * ONE, half), Ok(180 * ONE));
    assert_eq!(wrap_angle(725 * ONE, half), Ok(5 * ONE));
    assert_eq!(wrap_angle(-93 * ONE, half), Ok(-93 * ONE));
    assert_eq!(wrap_angle(i64::MIN, half), Ok(fmod(i64::MIN, 360 * ONE).unwrap()));
}

#[test]
fn wrap_angle_needs_a_storable_turn() {
    assert_eq!(wrap_angle(5, 0), Err(NavError::OutOfRange));
    assert_eq!(wrap_angle(5, -3), Err(NavError::OutOfRange));
    assert_eq!(wrap_angle(5, i64::MAX / 2 + 1), Err(NavError::OutOfRange));
    assert_eq!(wrap_angle(i64::MAX, i64::MAX / 2), Ok(1));
}
