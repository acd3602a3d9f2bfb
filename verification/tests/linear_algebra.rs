use strapdown::fixed::ONE;
use strapdown::linalg::{Matrix3, Vector3, Vector6};
use strapdown::types::NavError;

#[test]
fn vector_sums_and_scaling() {
    let a = Vector3::new(ONE, -2 * ONE, 3 * ONE);
    let b = Vector3::new(ONE / 2, ONE / 4, -ONE);
    assert_eq!(a.plus(&b), Ok(Vector3::new(3 * ONE / 2, -7 * ONE / 4, 2 * ONE)));
    assert_eq!(a.minus(&b), Ok(Vector3::new(ONE / 2, -9 * ONE / 4, 4 * ONE)));
    assert_eq!(a.negated(), Ok(Vector3::new(-ONE, 2 * ONE, -3 * ONE)));
    assert_eq!(a.scaled(ONE / 2), Ok(Vector3::new(ONE / 2, -ONE, 3 * ONE / 2)));
    assert_eq!(a.over(2 * ONE), Ok(Vector3::new(ONE / 2, -ONE, 3 * ONE / 2)));
    assert_eq!(a.over(0), Err(NavError::OutOfRange));
    assert_eq!(Vector3::new(i64::MAX, 0, 0).plus(&a), Err(NavError::OutOfRange));
}

#[test]
fn dot_cross_and_norm() {
    let a = Vector3::new(ONE, 2 * ONE, 3 * ONE);
    let b = Vector3::new(4 * ONE, -5 * ONE, 6 * ONE);
    assert_eq!(a.dot(&b), Ok(12 * ONE));
    assert_eq!(a.cross(&b), Ok(Vector3::new(27 * ONE, 6 * ONE, -13 * ONE)));
    assert_eq!(Vector3::new(3 * ONE, 4 * ONE, 0).norm(), Ok(5 * ONE));
    assert_eq!(Vector3::new(ONE, ONE, ONE).norm(), Ok(1_732_050_807_568));
    assert_eq!(Vector3::zeros().norm(), Ok(0));
    assert_eq!(Vector3::new(i64::MAX, i64::MAX, i64::MAX).norm(), Err(NavError::OutOfRange));
}

#[test]
fn matrix_products() {
    let m = Matrix3::new(
        ONE,
        2 * ONE,
        3 * ONE,
        4 * ONE,
        5 * ONE,
        6 * ONE,
        7 * ONE,
        8 * ONE,
        9 * ONE,
    );
    let v = Vector3::new(ONE, 0, -ONE);
    assert_eq!(m.times_vec(&v), Ok(Vector3::new(-2 * ONE, -2 * ONE, -2 * ONE)));
    assert_eq!(m.times(&Matrix3::identity()), Ok(m));
    assert_eq!(Matrix3::identity().times(&m), Ok(m));
    let t = m.transpose();
    assert_eq!(t.r0, Vector3::new(ONE, 4 * ONE, 7 * ONE));
    assert_eq!(t.transpose(), m);
    let p = m.times(&t).unwrap();
    assert_eq!(p.r0, Vector3::new(14 * ONE, 32 * ONE, 50 * ONE));
    assert_eq!(p.r1, Vector3::new(32 * ONE, 77 * ONE, 122 * ONE));
    assert_eq!(p.r2, Vector3::new(50 * ONE, 122 * ONE, 194 * ONE));
    assert_eq!(p.transpose(), p);
}

#[test]
fn matrix_sums_scaling_and_norm() {
    let d = Matrix3::from_diagonal(&Vector3::new(ONE, 2 * ONE, 3 * ONE));
    let s = d.plus(&Matrix3::identity()).unwrap();
    assert_eq!(s, Matrix3::from_diagonal(&Vector3::new(2 * ONE, 3 * ONE, 4 * ONE)));
    assert_eq!(s.minus(&d), Ok(Matrix3::identity()));
    assert_eq!(
        d.scaled(ONE / 2),
        Ok(Matrix3::from_diagonal(&Vector3::new(ONE / 2, ONE, 3 * ONE / 2)))
    );
    assert_eq!(Matrix3::identity().frobenius_norm(), Ok(1_732_050_807_568));
    assert_eq!(
        Matrix3::new(3 * ONE, 4 * ONE, 0, 0, 0, 0, 0, 0, 12 * ONE).frobenius_norm(),
        Ok(13 * ONE)
    );
}

#[test]
fn six_vector_holds_its_components_in_order() {
    let v = Vector6::new(1, 2, 3, 4, 5, 6);
    assert_eq!((v.e0, v.e1, v.e2, v.e3, v.e4, v.e5), (1, 2, 3, 4, 5, 6));
    assert_eq!(Vector6::zeros(), Vector6::new(0, 0, 0, 0, 0, 0));
}
