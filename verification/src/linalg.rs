//! Three-vectors and 3x3 matrices of fixed-point values.
//!
//! Each executable type has a mathematical view over unbounded integers; an
//! operation returns the view's result narrowed to stored values, or the error
//! when a component of it cannot be stored.
use crate::fixed::checked;
use crate::fixed::difference;
use crate::fixed::floor_root;
use crate::fixed::integer_root;
use crate::fixed::lemma_floor_root_between;
use crate::fixed::lemma_floor_root_exists;
use crate::fixed::lemma_product_value_bound;
use crate::fixed::lemma_product_value_symmetric;
use crate::fixed::lemma_product_value_units;
use crate::fixed::lemma_quotient_value_range;
use crate::fixed::lemma_quotient_value_unit;
use crate::fixed::magnitude;
use crate::fixed::narrow;
use crate::fixed::negated;
use crate::fixed::product;
use crate::fixed::product_value;
use crate::fixed::product_wide;
use crate::fixed::quotient;
use crate::fixed::quotient_value;
use crate::fixed::representable;
use crate::fixed::square_of;
use crate::fixed::sum;
use crate::fixed::ONE;
use crate::types::NavError;
use vstd::prelude::*;

verus! {

/// A three-vector of stored values.
#[derive(Debug, Clone, Copy, PartialEq, Eq, Structural)]
pub struct Vector3 {
    pub x: i64,
    pub y: i64,
    pub z: i64,
}

/// A six-vector of stored values.
#[derive(Debug, Clone, Copy, PartialEq, Eq, Structural)]
pub struct Vector6 {
    pub e0: i64,
    pub e1: i64,
    pub e2: i64,
    pub e3: i64,
    pub e4: i64,
    pub e5: i64,
}

/// A 3x3 matrix of stored values, held by rows.
#[derive(Debug, Clone, Copy, PartialEq, Eq, Structural)]
pub struct Matrix3 {
    pub r0: Vector3,
    pub r1: Vector3,
    pub r2: Vector3,
}

/// The mathematical three-vector: components before narrowing.
pub struct Vec3 {
    pub x: int,
    pub y: int,
    pub z: int,
}

/// The mathematical 3x3 matrix, by rows.
pub struct Mat3 {
    pub r0: Vec3,
    pub r1: Vec3,
    pub r2: Vec3,
}

impl Vec3 {
    /// Whether every component can be stored.
    pub open spec fn fits(self) -> bool {
        representable(self.x) && representable(self.y) && representable(self.z)
    }

    /// Whether every component is at most `k` in magnitude.
    pub open spec fn within(self, k: int) -> bool {
        -k <= self.x <= k && -k <= self.y <= k && -k <= self.z <= k
    }

    /// The stored vector with these components.
    pub open spec fn narrow(self) -> Vector3 {
        Vector3 { x: self.x as i64, y: self.y as i64, z: self.z as i64 }
    }

    /// The stored vector, or the error when a component cannot be stored.
    pub open spec fn narrowed(self) -> Result<Vector3, NavError> {
        if self.fits() {
            Ok(self.narrow())
        } else {
            Err(NavError::OutOfRange)
        }
    }

    /// Componentwise sum.
    pub open spec fn plus(self, o: Vec3) -> Vec3 {
        Vec3 { x: self.x + o.x, y: self.y + o.y, z: self.z + o.z }
    }

    /// Componentwise difference.
    pub open spec fn minus(self, o: Vec3) -> Vec3 {
        Vec3 { x: self.x - o.x, y: self.y - o.y, z: self.z - o.z }
    }

    /// The opposite vector.
    pub open spec fn negated(self) -> Vec3 {
        Vec3 { x: -self.x, y: -self.y, z: -self.z }
    }

    /// Each component times the stored value `k`, rounded.
    pub open spec fn scaled(self, k: int) -> Vec3 {
        Vec3 {
            x: product_value(self.x, k),
            y: product_value(self.y, k),
            z: product_value(self.z, k),
        }
    }

    /// Each component over the stored value `k`, rounded (`k != 0`).
    pub open spec fn over(self, k: int) -> Vec3 {
        Vec3 {
            x: quotient_value(self.x, k),
            y: quotient_value(self.y, k),
            z: quotient_value(self.z, k),
        }
    }

    /// `self / k` narrowed; the error for `k == 0`.
    pub open spec fn over_narrowed(self, k: int) -> Result<Vector3, NavError> {
        if k == 0 {
            Err(NavError::OutOfRange)
        } else {
            self.over(k).narrowed()
        }
    }

    /// The scalar product: the sum of the three rounded products.
    pub open spec fn dot(self, o: Vec3) -> int {
        product_value(self.x, o.x) + product_value(self.y, o.y) + product_value(self.z, o.z)
    }

    /// The vector product, each component a difference of two rounded products.
    pub open spec fn cross(self, o: Vec3) -> Vec3 {
        Vec3 {
            x: product_value(self.y, o.z) - product_value(self.z, o.y),
            y: product_value(self.z, o.x) - product_value(self.x, o.z),
            z: product_value(self.x, o.y) - product_value(self.y, o.x),
        }
    }

    /// The Euclidean length, rounded down.
    pub open spec fn norm(self) -> int {
        floor_root(self.x * self.x + self.y * self.y + self.z * self.z)
    }
}

impl Mat3 {
    /// Whether every entry can be stored.
    pub open spec fn fits(self) -> bool {
        self.r0.fits() && self.r1.fits() && self.r2.fits()
    }

    /// Whether every entry is at most `k` in magnitude.
    pub open spec fn within(self, k: int) -> bool {
        self.r0.within(k) && self.r1.within(k) && self.r2.within(k)
    }

    /// The stored matrix with these entries.
    pub open spec fn narrow(self) -> Matrix3 {
        Matrix3 { r0: self.r0.narrow(), r1: self.r1.narrow(), r2: self.r2.narrow() }
    }

    /// The stored matrix, or the error when an entry cannot be stored.
    pub open spec fn narrowed(self) -> Result<Matrix3, NavError> {
        if self.fits() {
            Ok(self.narrow())
        } else {
            Err(NavError::OutOfRange)
        }
    }

    /// The identity matrix.
    pub open spec fn identity() -> Mat3 {
        Mat3 {
            r0: Vec3 { x: ONE as int, y: 0, z: 0 },
            r1: Vec3 { x: 0, y: ONE as int, z: 0 },
            r2: Vec3 { x: 0, y: 0, z: ONE as int },
        }
    }

    /// The matrix with `d` on its diagonal and zero elsewhere.
    pub open spec fn diagonal(d: Vec3) -> Mat3 {
        Mat3 {
            r0: Vec3 { x: d.x, y: 0, z: 0 },
            r1: Vec3 { x: 0, y: d.y, z: 0 },
            r2: Vec3 { x: 0, y: 0, z: d.z },
        }
    }

    /// The first column.
    pub open spec fn c0(self) -> Vec3 {
        Vec3 { x: self.r0.x, y: self.r1.x, z: self.r2.x }
    }

    /// The second column.
    pub open spec fn c1(self) -> Vec3 {
        Vec3 { x: self.r0.y, y: self.r1.y, z: self.r2.y }
    }

    /// The third column.
    pub open spec fn c2(self) -> Vec3 {
        Vec3 { x: self.r0.z, y: self.r1.z, z: self.r2.z }
    }

    /// Rows and columns exchanged.
    pub open spec fn transpose(self) -> Mat3 {
        Mat3 { r0: self.c0(), r1: self.c1(), r2: self.c2() }
    }

    /// Entrywise sum.
    pub open spec fn plus(self, o: Mat3) -> Mat3 {
        Mat3 { r0: self.r0.plus(o.r0), r1: self.r1.plus(o.r1), r2: self.r2.plus(o.r2) }
    }

    /// Entrywise difference.
    pub open spec fn minus(self, o: Mat3) -> Mat3 {
        Mat3 { r0: self.r0.minus(o.r0), r1: self.r1.minus(o.r1), r2: self.r2.minus(o.r2) }
    }

    /// Whether the matrix is orthonormal to within `k` units in the last
    /// place: every entry of `M M^T - I` is at most `k` in magnitude.
    pub open spec fn orthonormal_within(self, k: int) -> bool {
        self.times(self.transpose()).minus(Mat3::identity()).within(k)
    }

    /// The lengths of the three rows.
    pub open spec fn row_norms(self) -> Vec3 {
        Vec3 { x: self.r0.norm(), y: self.r1.norm(), z: self.r2.norm() }
    }

    /// The Frobenius norm: the length of the vector of the rows' lengths.
    pub open spec fn frobenius(self) -> int {
        self.row_norms().norm()
    }

    /// The Frobenius norm as a stored value, or the error when it or a row's
    /// length cannot be stored.
    pub open spec fn frobenius_checked(self) -> Result<i64, NavError> {
        if self.row_norms().fits() {
            checked(self.frobenius())
        } else {
            Err(NavError::OutOfRange)
        }
    }

    /// Each entry times the stored value `k`, rounded.
    pub open spec fn scaled(self, k: int) -> Mat3 {
        Mat3 { r0: self.r0.scaled(k), r1: self.r1.scaled(k), r2: self.r2.scaled(k) }
    }

    /// The matrix applied to a vector: each row's scalar product with it.
    pub open spec fn times_vec(self, v: Vec3) -> Vec3 {
        Vec3 { x: self.r0.dot(v), y: self.r1.dot(v), z: self.r2.dot(v) }
    }

    /// The matrix product: each entry a row's scalar product with a column.
    pub open spec fn times(self, o: Mat3) -> Mat3 {
        Mat3 {
            r0: Vec3 { x: self.r0.dot(o.c0()), y: self.r0.dot(o.c1()), z: self.r0.dot(o.c2()) },
            r1: Vec3 { x: self.r1.dot(o.c0()), y: self.r1.dot(o.c1()), z: self.r1.dot(o.c2()) },
            r2: Vec3 { x: self.r2.dot(o.c0()), y: self.r2.dot(o.c1()), z: self.r2.dot(o.c2()) },
        }
    }
}

impl View for Vector3 {
    type V = Vec3;

    open spec fn view(&self) -> Vec3 {
        Vec3 { x: self.x as int, y: self.y as int, z: self.z as int }
    }
}

impl View for Matrix3 {
    type V = Mat3;

    open spec fn view(&self) -> Mat3 {
        Mat3 { r0: self.r0@, r1: self.r1@, r2: self.r2@ }
    }
}

impl Vector3 {
    /// The vector with the given components.
    pub fn new(x: i64, y: i64, z: i64) -> (r: Vector3)
        ensures
            r == (Vector3 { x, y, z }),
    {
        Vector3 { x, y, z }
    }

    /// The zero vector.
    pub fn zeros() -> (r: Vector3)
        ensures
            r == (Vector3 { x: 0, y: 0, z: 0 }),
    {
        Vector3 { x: 0, y: 0, z: 0 }
    }

    /// `self + o`.
    pub fn plus(&self, o: &Vector3) -> (r: Result<Vector3, NavError>)
        ensures
            r == self@.plus(o@).narrowed(),
    {
        let x: i64 = sum(self.x, o.x)?;
        let y: i64 = sum(self.y, o.y)?;
        let z: i64 = sum(self.z, o.z)?;
        Ok(Vector3 { x, y, z })
    }

    /// `self - o`.
    pub fn minus(&self, o: &Vector3) -> (r: Result<Vector3, NavError>)
        ensures
            r == self@.minus(o@).narrowed(),
    {
        let x: i64 = difference(self.x, o.x)?;
        let y: i64 = difference(self.y, o.y)?;
        let z: i64 = difference(self.z, o.z)?;
        Ok(Vector3 { x, y, z })
    }

    /// `-self`.
    pub fn negated(&self) -> (r: Result<Vector3, NavError>)
        ensures
            r == self@.negated().narrowed(),
    {
        let x: i64 = negated(self.x)?;
        let y: i64 = negated(self.y)?;
        let z: i64 = negated(self.z)?;
        Ok(Vector3 { x, y, z })
    }

    /// `self * k`, for a stored value `k`.
    pub fn scaled(&self, k: i64) -> (r: Result<Vector3, NavError>)
        ensures
            r == self@.scaled(k as int).narrowed(),
    {
        let x: i64 = product(self.x, k)?;
        let y: i64 = product(self.y, k)?;
        let z: i64 = product(self.z, k)?;
        Ok(Vector3 { x, y, z })
    }

    /// `self / k`, for a stored value `k`; none for `k == 0`.
    pub fn over(&self, k: i64) -> (r: Result<Vector3, NavError>)
        ensures
            r == self@.over_narrowed(k as int),
    {
        let x: i64 = quotient(self.x, k)?;
        let y: i64 = quotient(self.y, k)?;
        let z: i64 = quotient(self.z, k)?;
        Ok(Vector3 { x, y, z })
    }

    /// The scalar product of `self` and `o`.
    pub fn dot(&self, o: &Vector3) -> (r: Result<i64, NavError>)
        ensures
            r == checked(self@.dot(o@)),
    {
        narrow(
            product_wide(self.x, o.x) + product_wide(self.y, o.y) + product_wide(self.z, o.z),
        )
    }

    /// The vector product of `self` and `o`.
    pub fn cross(&self, o: &Vector3) -> (r: Result<Vector3, NavError>)
        ensures
            r == self@.cross(o@).narrowed(),
    {
        let x: i64 = narrow(product_wide(self.y, o.z) - product_wide(self.z, o.y))?;
        let y: i64 = narrow(product_wide(self.z, o.x) - product_wide(self.x, o.z))?;
        let z: i64 = narrow(product_wide(self.x, o.y) - product_wide(self.y, o.x))?;
        Ok(Vector3 { x, y, z })
    }

    /// The scalar products of `self` with the three rows of `t`.
    fn row_times(&self, t: &Matrix3) -> (r: Result<Vector3, NavError>)
        ensures
            r == (Vec3 {
                x: self@.dot(t.r0@),
                y: self@.dot(t.r1@),
                z: self@.dot(t.r2@),
            }).narrowed(),
    {
        let x: i64 = self.dot(&t.r0)?;
        let y: i64 = self.dot(&t.r1)?;
        let z: i64 = self.dot(&t.r2)?;
        Ok(Vector3 { x, y, z })
    }

    /// The Euclidean length of `self`, rounded down.
    pub fn norm(&self) -> (r: Result<i64, NavError>)
        ensures
            r == checked(self@.norm()),
    {
        let n: u128 = square_of(self.x) + square_of(self.y) + square_of(self.z);
        let root: u128 = integer_root(n);
        narrow(root as i128)
    }
}

impl Matrix3 {
    /// The matrix with the given entries, row by row.
    pub fn new(
        m11: i64,
        m12: i64,
        m13: i64,
        m21: i64,
        m22: i64,
        m23: i64,
        m31: i64,
        m32: i64,
        m33: i64,
    ) -> (r: Matrix3)
        ensures
            r == (Matrix3 {
                r0: Vector3 { x: m11, y: m12, z: m13 },
                r1: Vector3 { x: m21, y: m22, z: m23 },
                r2: Vector3 { x: m31, y: m32, z: m33 },
            }),
    {
        Matrix3 {
            r0: Vector3 { x: m11, y: m12, z: m13 },
            r1: Vector3 { x: m21, y: m22, z: m23 },
            r2: Vector3 { x: m31, y: m32, z: m33 },
        }
    }

    /// The identity matrix.
    pub fn identity() -> (r: Matrix3)
        ensures
            r@ == Mat3::identity(),
    {
        Matrix3::new(ONE, 0, 0, 0, ONE, 0, 0, 0, ONE)
    }

    /// The matrix with `d` on its diagonal and zero elsewhere.
    pub fn from_diagonal(d: &Vector3) -> (r: Matrix3)
        ensures
            r@ == Mat3::diagonal(d@),
    {
        Matrix3::new(d.x, 0, 0, 0, d.y, 0, 0, 0, d.z)
    }

    /// Rows and columns exchanged.
    pub fn transpose(&self) -> (r: Matrix3)
        ensures
            r@ == self@.transpose(),
    {
        Matrix3::new(
            self.r0.x,
            self.r1.x,
            self.r2.x,
            self.r0.y,
            self.r1.y,
            self.r2.y,
            self.r0.z,
            self.r1.z,
            self.r2.z,
        )
    }

    /// `self + o`.
    pub fn plus(&self, o: &Matrix3) -> (r: Result<Matrix3, NavError>)
        ensures
            r == self@.plus(o@).narrowed(),
    {
        let r0: Vector3 = self.r0.plus(&o.r0)?;
        let r1: Vector3 = self.r1.plus(&o.r1)?;
        let r2: Vector3 = self.r2.plus(&o.r2)?;
        Ok(Matrix3 { r0, r1, r2 })
    }

    /// `self - o`.
    pub fn minus(&self, o: &Matrix3) -> (r: Result<Matrix3, NavError>)
        ensures
            r == self@.minus(o@).narrowed(),
    {
        let r0: Vector3 = self.r0.minus(&o.r0)?;
        let r1: Vector3 = self.r1.minus(&o.r1)?;
        let r2: Vector3 = self.r2.minus(&o.r2)?;
        Ok(Matrix3 { r0, r1, r2 })
    }

    /// The Frobenius norm of `self`.
    pub fn frobenius_norm(&self) -> (r: Result<i64, NavError>)
        ensures
            r == self@.frobenius_checked(),
    {
        let x: i64 = self.r0.norm()?;
        let y: i64 = self.r1.norm()?;
        let z: i64 = self.r2.norm()?;
        Vector3 { x, y, z }.norm()
    }

    /// `self * k`, for a stored value `k`.
    pub fn scaled(&self, k: i64) -> (r: Result<Matrix3, NavError>)
        ensures
            r == self@.scaled(k as int).narrowed(),
    {
        let r0: Vector3 = self.r0.scaled(k)?;
        let r1: Vector3 = self.r1.scaled(k)?;
        let r2: Vector3 = self.r2.scaled(k)?;
        Ok(Matrix3 { r0, r1, r2 })
    }

    /// `self * v`.
    pub fn times_vec(&self, v: &Vector3) -> (r: Result<Vector3, NavError>)
        ensures
            r == self@.times_vec(v@).narrowed(),
    {
        let x: i64 = self.r0.dot(v)?;
        let y: i64 = self.r1.dot(v)?;
        let z: i64 = self.r2.dot(v)?;
        Ok(Vector3 { x, y, z })
    }

    /// `self * o`.
    pub fn times(&self, o: &Matrix3) -> (r: Result<Matrix3, NavError>)
        ensures
            r == self@.times(o@).narrowed(),
    {
        let t: Matrix3 = o.transpose();
        let r0: Vector3 = self.r0.row_times(&t)?;
        let r1: Vector3 = self.r1.row_times(&t)?;
        let r2: Vector3 = self.r2.row_times(&t)?;
        Ok(Matrix3 { r0, r1, r2 })
    }
}

impl Vector6 {
    /// The vector with the given components.
    pub fn new(e0: i64, e1: i64, e2: i64, e3: i64, e4: i64, e5: i64) -> (r: Vector6)
        ensures
            r == (Vector6 { e0, e1, e2, e3, e4, e5 }),
    {
        Vector6 { e0, e1, e2, e3, e4, e5 }
    }

    /// The zero vector.
    pub fn zeros() -> (r: Vector6)
        ensures
            r == (Vector6 { e0: 0, e1: 0, e2: 0, e3: 0, e4: 0, e5: 0 }),
    {
        Vector6 { e0: 0, e1: 0, e2: 0, e3: 0, e4: 0, e5: 0 }
    }
}

/// Scaling by a value of at most `m` whole units multiplies a bound by `m`.
pub proof fn lemma_scaled_within(v: Vec3, k: int, bound: int, m: int)
    requires
        v.within(bound),
        -(m * ONE) <= k <= m * ONE,
    ensures
        v.scaled(k).within(m * bound),
{
    lemma_product_value_bound(v.x, k, bound, m);
    lemma_product_value_bound(v.y, k, bound, m);
    lemma_product_value_bound(v.z, k, bound, m);
}

/// Scaling a matrix by a value of at most `m` whole units multiplies a
/// bound by `m`.
pub proof fn lemma_matrix_scaled_within(a: Mat3, k: int, bound: int, m: int)
    requires
        a.within(bound),
        -(m * ONE) <= k <= m * ONE,
    ensures
        a.scaled(k).within(m * bound),
{
    lemma_scaled_within(a.r0, k, bound, m);
    lemma_scaled_within(a.r1, k, bound, m);
    lemma_scaled_within(a.r2, k, bound, m);
}

/// A quotient is bounded by `w` when each component is at most `w` times
/// the divisor, in magnitude.
pub proof fn lemma_over_within(v: Vec3, k: int, w: int)
    requires
        k != 0,
        magnitude(v.x) * ONE <= w * magnitude(k),
        magnitude(v.y) * ONE <= w * magnitude(k),
        magnitude(v.z) * ONE <= w * magnitude(k),
    ensures
        v.over(k).within(w),
{
    lemma_quotient_value_range(v.x, k, w);
    lemma_quotient_value_range(v.y, k, w);
    lemma_quotient_value_range(v.z, k, w);
}

/// The scalar product of a vector within `m` whole units with one within
/// `bound` is within `3 m bound`.
pub proof fn lemma_dot_within(a: Vec3, b: Vec3, m: int, bound: int)
    requires
        a.within(m * ONE),
        b.within(bound),
    ensures
        -(3 * (m * bound)) <= a.dot(b) <= 3 * (m * bound),
        -(3 * (m * bound)) <= b.dot(a) <= 3 * (m * bound),
{
    lemma_product_value_bound(b.x, a.x, bound, m);
    lemma_product_value_bound(b.y, a.y, bound, m);
    lemma_product_value_bound(b.z, a.z, bound, m);
    lemma_product_value_symmetric(a.x, b.x);
    lemma_product_value_symmetric(a.y, b.y);
    lemma_product_value_symmetric(a.z, b.z);
}

/// A matrix within `m` whole units applied to a vector within `bound` gives
/// one within `3 m bound`.
pub proof fn lemma_times_vec_within(a: Mat3, v: Vec3, m: int, bound: int)
    requires
        a.within(m * ONE),
        v.within(bound),
    ensures
        a.times_vec(v).within(3 * (m * bound)),
{
    lemma_dot_within(a.r0, v, m, bound);
    lemma_dot_within(a.r1, v, m, bound);
    lemma_dot_within(a.r2, v, m, bound);
}

/// The product of a matrix within `bound` with one within `m` whole units
/// is within `3 m bound`.
pub proof fn lemma_times_within(a: Mat3, b: Mat3, bound: int, m: int)
    requires
        a.within(bound),
        b.within(m * ONE),
    ensures
        a.times(b).within(3 * (m * bound)),
{
    lemma_dot_within(b.c0(), a.r0, m, bound);
    lemma_dot_within(b.c1(), a.r0, m, bound);
    lemma_dot_within(b.c2(), a.r0, m, bound);
    lemma_dot_within(b.c0(), a.r1, m, bound);
    lemma_dot_within(b.c1(), a.r1, m, bound);
    lemma_dot_within(b.c2(), a.r1, m, bound);
    lemma_dot_within(b.c0(), a.r2, m, bound);
    lemma_dot_within(b.c1(), a.r2, m, bound);
    lemma_dot_within(b.c2(), a.r2, m, bound);
}

/// No component of a vector exceeds its length by one or more.
pub proof fn lemma_norm_dominates(v: Vec3)
    ensures
        0 <= v.norm(),
        magnitude(v.x) <= v.norm(),
        magnitude(v.y) <= v.norm(),
        magnitude(v.z) <= v.norm(),
{
    let n = v.x * v.x + v.y * v.y + v.z * v.z;
    assert(0 <= n) by (nonlinear_arith)
        requires
            n == v.x * v.x + v.y * v.y + v.z * v.z,
    ;
    lemma_floor_root_exists(n);
    let h = v.norm();
    assert(magnitude(v.x) <= h && magnitude(v.y) <= h && magnitude(v.z) <= h)
        by (nonlinear_arith)
        requires
            n == v.x * v.x + v.y * v.y + v.z * v.z,
            n < (h + 1) * (h + 1),
            0 <= h,
    ;
}

/// The length of a vector within `bound` is at most twice `bound`.
pub proof fn lemma_norm_within(v: Vec3, bound: int)
    requires
        v.within(bound),
    ensures
        0 <= v.norm() <= 2 * bound,
{
    let n = v.x * v.x + v.y * v.y + v.z * v.z;
    assert(0 <= n <= (2 * bound) * (2 * bound) && 0 <= 2 * bound) by (nonlinear_arith)
        requires
            n == v.x * v.x + v.y * v.y + v.z * v.z,
            v.within(bound),
    ;
    lemma_floor_root_between(n, 0, 2 * bound);
}

/// A vector over its own length, when that is not zero, is within one.
pub proof fn lemma_unit_within(v: Vec3)
    requires
        v.norm() != 0,
    ensures
        v.over(v.norm()).within(ONE as int),
{
    lemma_norm_dominates(v);
    lemma_quotient_value_unit(v.x, v.norm());
    lemma_quotient_value_unit(v.y, v.norm());
    lemma_quotient_value_unit(v.z, v.norm());
}

/// A matrix times the identity is the matrix.
pub proof fn lemma_times_identity(m: Mat3)
    ensures
        m.times(Mat3::identity()) == m,
{
    lemma_product_value_units(m.r0.x);
    lemma_product_value_units(m.r0.y);
    lemma_product_value_units(m.r0.z);
    lemma_product_value_units(m.r1.x);
    lemma_product_value_units(m.r1.y);
    lemma_product_value_units(m.r1.z);
    lemma_product_value_units(m.r2.x);
    lemma_product_value_units(m.r2.y);
    lemma_product_value_units(m.r2.z);
}

} // verus!
