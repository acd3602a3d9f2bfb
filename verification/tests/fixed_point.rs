use strapdown::fixed::{
    difference, integer_root, negated, product, quotient, ratio, root, sum, ONE,
};
use strapdown::types::NavError;

#[test]
fn product_rounds_to_nearest() {
    assert_eq!(product(3 * ONE, ONE / 2), Ok(3 * ONE / 2));
    assert_eq!(product(1, ONE / 2), Ok(1));
    assert_eq!(product(-1, ONE / 2), Ok(-1));
    assert_eq!(product(1, ONE / 2 - 1), Ok(0));
    assert_eq!(product(3, ONE / 2), Ok(2));
    assert_eq!(product(-3, ONE / 2), Ok(-2));
    assert_eq!(product(-7 * ONE, 6 * ONE), Ok(-42 * ONE));
}

#[test]
fn product_by_one_and_zero() {
    for x in [0, 1, -1, 123_456_789_012_345, i64::MAX, -i64::MAX] {
        assert_eq!(product(x, ONE), Ok(x));
        assert_eq!(product(ONE, x), Ok(x));
        assert_eq!(product(x, 0), Ok(0));
    }
}

#[test]
fn product_out_of_range() {
    assert_eq!(product(i64::MAX, 2 * ONE), Err(NavError::OutOfRange));
    assert_eq!(product(i64::MIN, ONE), Err(NavError::OutOfRange));
    assert_eq!(product(i64::MIN, -ONE), Err(NavError::OutOfRange));
    assert_eq!(product(i64::MIN, i64::MIN), Err(NavError::OutOfRange));
}

#[test]
fn quotient_rounds_to_nearest() {
    assert_eq!(quotient(ONE, 3 * ONE), Ok(333_333_333_333));
    assert_eq!(quotient(2 * ONE, 3 * ONE), Ok(666_666_666_667));
    assert_eq!(quotient(-2 * ONE, 3 * ONE), Ok(-666_666_666_667));
    assert_eq!(quotient(2 * ONE, -3 * ONE), Ok(-666_666_666_667));
    assert_eq!(quotient(1, 2 * ONE), Ok(1));
    assert_eq!(quotient(6 * ONE, 2 * ONE), Ok(3 * ONE));
}

#[test]
fn quotient_by_zero_and_out_of_range() {
    assert_eq!(quotient(ONE, 0), Err(NavError::OutOfRange));
    assert_eq!(quotient(0, 0), Err(NavError::OutOfRange));
    assert_eq!(quotient(i64::MAX, ONE / 2), Err(NavError::OutOfRange));
    assert_eq!(quotient(i64::MAX, ONE), Ok(i64::MAX));
}

#[test]
fn ratio_by_a_whole_number() {
    assert_eq!(ratio(1_000 * ONE, 1_000_000), Ok(ONE / 1_000));
    assert_eq!(ratio(7, 2), Ok(4));
    assert_eq!(ratio(-7, 2), Ok(-4));
    assert_eq!(ratio(5, 3), Ok(2));
    assert_eq!(ratio(4, 3), Ok(1));
    assert_eq!(ratio(4, 0), Err(NavError::OutOfRange));
    assert_eq!(ratio(i64::MIN, 1), Err(NavError::OutOfRange));
}

#[test]
fn root_rounds_down() {
    assert_eq!(root(4 * ONE), Ok(2 * ONE));
    assert_eq!(root(2 * ONE), Ok(1_414_213_562_373));
    assert_eq!(root(0), Ok(0));
    assert_eq!(root(1), Ok(1_000_000));
    assert_eq!(root(i64::MAX), Ok(3_037_000_499_976_049));
    assert_eq!(root(-1), Err(NavError::OutOfRange));
}

#[test]
fn integer_root_is_the_floor() {
    assert_eq!(integer_root(0), 0);
    assert_eq!(integer_root(1), 1);
    assert_eq!(integer_root(3), 1);
    assert_eq!(integer_root(4), 2);
    assert_eq!(integer_root(99), 9);
    assert_eq!(integer_root(u128::MAX), u64::MAX as u128);
    let r = integer_root(123_456_789_012_345_678_901_234_567_890);
    assert!(r * r <= 123_456_789_012_345_678_901_234_567_890);
    assert!((r + 1) * (r + 1) > 123_456_789_012_345_678_901_234_567_890);
}

#[test]
fn sums_keep_the_symmetric_range() {
    assert_eq!(sum(i64::MAX, 0), Ok(i64::MAX));
    assert_eq!(sum(i64::MAX, 1), Err(NavError::OutOfRange));
    assert_eq!(sum(-i64::MAX, -1), Err(NavError::OutOfRange));
    assert_eq!(difference(-i64::MAX, 1), Err(NavError::OutOfRange));
    assert_eq!(difference(5, 7), Ok(-2));
    assert_eq!(negated(i64::MIN), Err(NavError::OutOfRange));
    assert_eq!(negated(i64::MAX), Ok(-i64::MAX));
}
