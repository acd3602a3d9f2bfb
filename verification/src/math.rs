//! Math utility functions.
use crate::fixed::lemma_product_value_odd;
use crate::fixed::lemma_product_value_units;
use crate::fixed::magnitude;
use crate::fixed::negated;
use crate::fixed::product_value;
use crate::linalg::Mat3;
use crate::linalg::Matrix3;
use crate::linalg::Vec3;
use crate::linalg::Vector3;
use crate::types::NavError;
use vstd::arithmetic::div_mod::lemma_fundamental_div_mod;
use vstd::arithmetic::div_mod::lemma_fundamental_div_mod_converse;
use vstd::arithmetic::div_mod::lemma_mod_add_multiples_vanish;
use vstd::arithmetic::div_mod::lemma_mod_sub_multiples_vanish;
use vstd::prelude::*;

verus! {

/// The skew-symmetric matrix of `v`: the matrix whose product with any `x` is
/// the vector product of `v` and `x`.
pub open spec fn skew_value(v: Vec3) -> Mat3 {
    Mat3 {
        r0: Vec3 { x: 0, y: -v.z, z: v.y },
        r1: Vec3 { x: v.z, y: 0, z: -v.x },
        r2: Vec3 { x: -v.y, y: v.x, z: 0 },
    }
}

/// The skew-symmetric form of a vector.
///
/// The only vectors without one are those with a component of `i64::MIN`,
/// whose opposite cannot be stored.
pub fn skew(vec3: &Vector3) -> (r: Result<Matrix3, NavError>)
    ensures
        r == skew_value(vec3@).narrowed(),
        r is Ok <==> vec3.x != i64::MIN && vec3.y != i64::MIN && vec3.z != i64::MIN,
{
    let nx: i64 = negated(vec3.x)?;
    let ny: i64 = negated(vec3.y)?;
    let nz: i64 = negated(vec3.z)?;
    Ok(Matrix3::new(0, nz, vec3.y, vec3.z, 0, nx, ny, vec3.x, 0))
}

/// The remainder of `num / den` with the sign of `num` (`den != 0`).
pub open spec fn remainder_value(num: int, den: int) -> int {
    if num < 0 {
        -(magnitude(num) % magnitude(den))
    } else {
        num % magnitude(den)
    }
}

/// The remainder of a division of stored values; none by zero.
pub open spec fn spec_fmod(num: i64, den: i64) -> Result<i64, NavError> {
    if den == 0 {
        Err(NavError::OutOfRange)
    } else {
        Ok(remainder_value(num as int, den as int) as i64)
    }
}

/// Remainder of division.
///
/// The result has the sign of `num` and a magnitude below that of `den`, and
/// differs from `num` by a whole multiple of `den`. It is exact.
pub fn fmod(num: i64, den: i64) -> (r: Result<i64, NavError>)
    ensures
        r == spec_fmod(num, den),
        r matches Ok(v) ==> magnitude(v as int) < magnitude(den as int) && (v == 0 || (v < 0) == (
        num < 0)) && (num - v) % (den as int) == 0,
{
    if den == 0 {
        return Err(NavError::OutOfRange);
    }
    let n: u64 = if num < 0 {
        (-(num as i128)) as u64
    } else {
        num as u64
    };
    let d: u64 = if den < 0 {
        (-(den as i128)) as u64
    } else {
        den as u64
    };
    let m: u64 = n % d;
    proof {
        lemma_fundamental_div_mod(n as int, d as int);
        let q = (n / d) as int;
        let k = if (num < 0) == (den < 0) {
            q
        } else {
            -q
        };
        let v = if num < 0 {
            -(m as int)
        } else {
            m as int
        };
        assert(num - v == k * den + 0) by (nonlinear_arith)
            requires
                n == d * q + m,
                n == magnitude(num as int),
                d == magnitude(den as int),
                v == if num < 0 {
                    -(m as int)
                } else {
                    m as int
                },
                k == if (num < 0) == (den < 0) {
                    q
                } else {
                    -q
                },
        ;
        if den > 0 {
            lemma_fundamental_div_mod_converse(num - v, den as int, k, 0);
        } else {
            assert(num - v == (-k) * (-den) + 0) by (nonlinear_arith)
                requires
                    num - v == k * den + 0,
            ;
            lemma_fundamental_div_mod_converse(num - v, -den, -k, 0);
            lemma_mod_of_opposite_divisor(num - v, den as int);
        }
    }
    if num < 0 {
        Ok(-(m as i64))
    } else {
        Ok(m as i64)
    }
}

/// Brings an angle into the half-open turn `(-half_turn, half_turn]`.
///
/// The result differs from `angle` by a whole number of full turns. There is
/// none when `half_turn` is not positive or a full turn cannot be stored.
pub fn wrap_angle(angle: i64, half_turn: i64) -> (r: Result<i64, NavError>)
    ensures
        r is Ok <==> 0 < half_turn <= i64::MAX / 2,
        r matches Ok(w) ==> -half_turn < w <= half_turn && (angle - w) % (2 * half_turn) == 0,
        r matches Err(e) ==> e == NavError::OutOfRange,
{
    if half_turn <= 0 || half_turn > i64::MAX / 2 {
        return Err(NavError::OutOfRange);
    }
    let turn: i64 = 2 * half_turn;
    let rest: i64 = fmod(angle, turn)?;
    if rest > half_turn {
        proof {
            lemma_mod_add_multiples_vanish(angle - rest, turn as int);
        }
        Ok(rest - turn)
    } else if rest <= -half_turn {
        proof {
            lemma_mod_sub_multiples_vanish(angle - rest, turn as int);
        }
        Ok(rest + turn)
    } else {
        Ok(rest)
    }
}

/// Zero annihilates the rounded product, which is odd in its first factor.
proof fn lemma_product_value_signs(a: int, b: int)
    ensures
        product_value(0, b) == 0,
        product_value(-a, b) == -product_value(a, b),
{
    lemma_product_value_units(b);
    lemma_product_value_odd(a, b);
}

/// The product of `skew(v)` with `x` is the vector product of `v` and `x`,
/// exactly, rounding included, for all vectors `v` and `x`.
pub proof fn lemma_skew_times_is_cross(v: Vec3, x: Vec3)
    ensures
        skew_value(v).times_vec(x) == v.cross(x),
        skew_value(v).times_vec(x).narrowed() == v.cross(x).narrowed(),
{
    lemma_product_value_signs(v.x, x.x);
    lemma_product_value_signs(v.x, x.y);
    lemma_product_value_signs(v.x, x.z);
    lemma_product_value_signs(v.y, x.x);
    lemma_product_value_signs(v.y, x.y);
    lemma_product_value_signs(v.y, x.z);
    lemma_product_value_signs(v.z, x.x);
    lemma_product_value_signs(v.z, x.y);
    lemma_product_value_signs(v.z, x.z);
}

/// A multiple of `-d` is a multiple of `d`.
proof fn lemma_mod_of_opposite_divisor(x: int, d: int)
    requires
        d < 0,
        x % (-d) == 0,
    ensures
        x % d == 0,
{
    lemma_fundamental_div_mod(x, -d);
    let q = x / (-d);
    assert(x == (-q) * d + 0) by (nonlinear_arith)
        requires
            x == (-d) * q + 0,
    ;
    lemma_fundamental_div_mod(x, d);
    let q2 = x / d;
    let r2 = x % d;
    assert(0 <= r2 < -d);
    assert(r2 == 0) by (nonlinear_arith)
        requires
            x == (-q) * d + 0,
            x == d * q2 + r2,
            0 <= r2 < -d,
            d < 0,
    ;
}

} // verus!
