//! Fixed-point scalars.
//!
//! A stored `i64` of `n` stands for the number `n / ONE`. Products and
//! quotients are rounded to the nearest stored value, ties away from zero.
//! The stored range is symmetric: `i64::MIN` stands for no number.
use crate::types::NavError;
use vstd::arithmetic::div_mod::lemma_div_is_ordered;
use vstd::arithmetic::div_mod::lemma_fundamental_div_mod;
use vstd::arithmetic::div_mod::lemma_fundamental_div_mod_converse;
use vstd::arithmetic::div_mod::lemma_mod_pos_bound;
use vstd::prelude::*;

verus! {

/// The stored value of 1.
pub const ONE: i64 = 1_000_000_000_000;

/// A bound, two to the power 103, on the magnitude that a product or
/// quotient of two stored values can reach before it is narrowed.
pub const WIDE_MAX: i128 = 0x80_0000_0000_0000_0000_0000_0000;

/// The absolute value of `x`.
pub open spec fn magnitude(x: int) -> int {
    if x < 0 {
        -x
    } else {
        x
    }
}

/// Whether `x` can be stored.
pub open spec fn representable(x: int) -> bool {
    -(i64::MAX as int) <= x <= i64::MAX as int
}

/// `x` as a stored value, or the error for a value that cannot be stored.
pub open spec fn checked(x: int) -> Result<i64, NavError> {
    if representable(x) {
        Ok(x as i64)
    } else {
        Err(NavError::OutOfRange)
    }
}

/// `n / d` rounded to the nearest integer, ties away from zero (`d != 0`).
pub open spec fn round_div(n: int, d: int) -> int {
    let q = (2 * magnitude(n) + magnitude(d)) / (2 * magnitude(d));
    if (n < 0) != (d < 0) {
        -q
    } else {
        q
    }
}

/// The exact product of two stored values, as a stored value before narrowing.
pub open spec fn product_value(a: int, b: int) -> int {
    round_div(a * b, ONE as int)
}

/// The exact quotient of two stored values, as a stored value before narrowing.
pub open spec fn quotient_value(a: int, b: int) -> int {
    round_div(a * ONE, b)
}

/// Whether `r` is the integer part of the square root of `n`.
pub open spec fn is_floor_root(n: int, r: int) -> bool {
    0 <= r && r * r <= n < (r + 1) * (r + 1)
}

/// The integer part of the square root of `n` (`n >= 0`).
pub open spec fn floor_root(n: int) -> int {
    choose|r: int| is_floor_root(n, r)
}

/// The square root of a stored value, as a stored value (`a >= 0`).
pub open spec fn root_value(a: int) -> int {
    floor_root(a * ONE)
}

/// The sum of two stored values.
pub open spec fn spec_sum(a: i64, b: i64) -> Result<i64, NavError> {
    checked(a + b)
}

/// The difference of two stored values.
pub open spec fn spec_difference(a: i64, b: i64) -> Result<i64, NavError> {
    checked(a - b)
}

/// The negation of a stored value.
pub open spec fn spec_negated(a: i64) -> Result<i64, NavError> {
    checked(-a)
}

/// The rounded product of two stored values.
pub open spec fn spec_product(a: i64, b: i64) -> Result<i64, NavError> {
    checked(product_value(a as int, b as int))
}

/// The rounded quotient of two stored values; none by zero.
pub open spec fn spec_quotient(a: i64, b: i64) -> Result<i64, NavError> {
    if b == 0 {
        Err(NavError::OutOfRange)
    } else {
        checked(quotient_value(a as int, b as int))
    }
}

/// A stored value over the whole number `k`, rounded; none for `k == 0`.
pub open spec fn spec_ratio(a: i64, k: i64) -> Result<i64, NavError> {
    if k == 0 {
        Err(NavError::OutOfRange)
    } else {
        checked(round_div(a as int, k as int))
    }
}

/// The square root of a stored value, rounded down; none of a negative one.
pub open spec fn spec_root(a: i64) -> Result<i64, NavError> {
    if a < 0 {
        Err(NavError::OutOfRange)
    } else {
        Ok(root_value(a as int) as i64)
    }
}

/// The absolute value of a stored value.
pub(crate) fn magnitude_of(a: i64) -> (m: u128)
    ensures
        m == magnitude(a as int),
        m <= 0x8000_0000_0000_0000,
{
    if a < 0 {
        (-(a as i128)) as u128
    } else {
        a as u128
    }
}

/// `n / d` rounded to the nearest integer, ties up.
fn round_div_magnitudes(n: u128, d: u128) -> (q: u128)
    requires
        d > 0,
        n <= 0x7fff_ffff_ffff_ffff_ffff_ffff_ffff_ffff,
    ensures
        q == (2 * n + d) / (2 * d),
        q <= n,
{
    let whole: u128 = n / d;
    let rest: u128 = n % d;
    proof {
        lemma_fundamental_div_mod(n as int, d as int);
        assert(whole * d <= n && whole <= n) by (nonlinear_arith)
            requires
                n == d * whole + rest,
                d > 0,
                whole >= 0,
                rest >= 0,
        ;
    }
    if rest >= d - rest {
        proof {
            assert(2 * n + d == (whole + 1) * (2 * d) + (2 * rest - d)) by (nonlinear_arith)
                requires
                    n == d * whole + rest,
            ;
            lemma_fundamental_div_mod_converse(
                2 * n + d,
                2 * d,
                whole + 1,
                2 * rest - d,
            );
            assert(whole + 1 <= n) by (nonlinear_arith)
                requires
                    n == d * whole + rest,
                    2 * rest >= d,
                    rest < d,
                    d > 0,
                    whole >= 0,
            ;
        }
        whole + 1
    } else {
        proof {
            assert(2 * n + d == whole * (2 * d) + (2 * rest + d)) by (nonlinear_arith)
                requires
                    n == d * whole + rest,
            ;
            lemma_fundamental_div_mod_converse(2 * n + d, 2 * d, whole as int, 2 * rest + d);
        }
        whole
    }
}

/// The square of a stored value, exactly and unscaled.
pub(crate) fn square_of(a: i64) -> (s: u128)
    ensures
        s == a * a,
        s <= 0x4000_0000_0000_0000_0000_0000_0000_0000,
{
    let m: u128 = magnitude_of(a);
    assert(m * m == a * a && m * m <= 0x4000_0000_0000_0000_0000_0000_0000_0000)
        by (nonlinear_arith)
        requires
            m == magnitude(a as int),
            m <= 0x8000_0000_0000_0000,
    ;
    m * m
}

/// `a * b` rounded to a stored value, not yet narrowed.
pub(crate) fn product_wide(a: i64, b: i64) -> (r: i128)
    ensures
        r == product_value(a as int, b as int),
        -WIDE_MAX <= r <= WIDE_MAX,
{
    let ma: u128 = magnitude_of(a);
    let mb: u128 = magnitude_of(b);
    assert(ma * mb <= 0x4000_0000_0000_0000_0000_0000_0000_0000) by (nonlinear_arith)
        requires
            ma <= 0x8000_0000_0000_0000,
            mb <= 0x8000_0000_0000_0000,
    ;
    let q: u128 = round_div_magnitudes(ma * mb, ONE as u128);
    proof {
        let x = a as int;
        let y = b as int;
        assert(magnitude(x * y) == magnitude(x) * magnitude(y) && ((x * y < 0) ==> ((x < 0) != (
        y < 0))) && (((x < 0) != (y < 0)) ==> x * y <= 0)) by (nonlinear_arith);
    }
    if (a < 0) != (b < 0) {
        -(q as i128)
    } else {
        q as i128
    }
}

/// `a / m` rounded to a stored value, not yet narrowed, for a positive
/// magnitude `m`.
pub(crate) fn quotient_by_magnitude(a: i64, m: u128) -> (r: i128)
    requires
        m > 0,
    ensures
        r == quotient_value(a as int, m as int),
        -WIDE_MAX <= r <= WIDE_MAX,
{
    let ma: u128 = magnitude_of(a);
    let one: u128 = ONE as u128;
    assert(ma * one <= 0x8000_0000_0000_0000 * 1_000_000_000_000) by (nonlinear_arith)
        requires
            ma <= 0x8000_0000_0000_0000,
            one == 1_000_000_000_000,
    ;
    let q: u128 = round_div_magnitudes(ma * one, m);
    proof {
        let x = a as int;
        assert(magnitude(x * ONE) == magnitude(x) * one && ((x * ONE < 0) == (x < 0)))
            by (nonlinear_arith)
            requires
                ONE == 1_000_000_000_000,
                one == 1_000_000_000_000,
        ;
    }
    if a < 0 {
        -(q as i128)
    } else {
        q as i128
    }
}

/// `a / b` rounded to a stored value, not yet narrowed.
pub(crate) fn quotient_wide(a: i64, b: i64) -> (r: i128)
    requires
        b != 0,
    ensures
        r == quotient_value(a as int, b as int),
        -WIDE_MAX <= r <= WIDE_MAX,
{
    let q: i128 = quotient_by_magnitude(a, magnitude_of(b));
    if b < 0 {
        -q
    } else {
        q
    }
}

/// Narrows a wide value to a stored one.
pub(crate) fn narrow(x: i128) -> (r: Result<i64, NavError>)
    ensures
        r == checked(x as int),
{
    if x < -(i64::MAX as i128) || x > i64::MAX as i128 {
        Err(NavError::OutOfRange)
    } else {
        Ok(x as i64)
    }
}

/// The integer part of the square root of `n`.
pub fn integer_root(n: u128) -> (r: u128)
    ensures
        r == floor_root(n as int),
        is_floor_root(n as int, r as int),
        r < 0x1_0000_0000_0000_0000,
{
    let mut lo: u128 = 0;
    let mut hi: u128 = 0x1_0000_0000_0000_0000;
    assert(hi * hi > n) by (nonlinear_arith)
        requires
            hi == 0x1_0000_0000_0000_0000,
            n <= u128::MAX,
    ;
    while hi - lo > 1
        invariant
            lo < hi <= 0x1_0000_0000_0000_0000,
            lo * lo <= n < hi * hi,
        decreases hi - lo,
    {
        let mid: u128 = lo + (hi - lo) / 2;
        assert(mid * mid <= u128::MAX) by (nonlinear_arith)
            requires
                mid < 0x1_0000_0000_0000_0000,
        ;
        if mid * mid <= n {
            lo = mid;
        } else {
            hi = mid;
        }
    }
    proof {
        lemma_floor_root_unique(n as int, lo as int);
    }
    lo
}

/// `a + b`.
pub fn sum(a: i64, b: i64) -> (r: Result<i64, NavError>)
    ensures
        r == spec_sum(a, b),
{
    narrow(a as i128 + b as i128)
}

/// `a - b`.
pub fn difference(a: i64, b: i64) -> (r: Result<i64, NavError>)
    ensures
        r == spec_difference(a, b),
{
    narrow(a as i128 - b as i128)
}

/// `-a`.
pub fn negated(a: i64) -> (r: Result<i64, NavError>)
    ensures
        r == spec_negated(a),
{
    narrow(-(a as i128))
}

/// `a * b`, rounded to the nearest stored value.
pub fn product(a: i64, b: i64) -> (r: Result<i64, NavError>)
    ensures
        r == spec_product(a, b),
{
    narrow(product_wide(a, b))
}

/// `a / b`, rounded to the nearest stored value.
pub fn quotient(a: i64, b: i64) -> (r: Result<i64, NavError>)
    ensures
        r == spec_quotient(a, b),
{
    if b == 0 {
        Err(NavError::OutOfRange)
    } else {
        narrow(quotient_wide(a, b))
    }
}

/// `a / k` for a whole number `k`, rounded to the nearest stored value.
pub fn ratio(a: i64, k: i64) -> (r: Result<i64, NavError>)
    ensures
        r == spec_ratio(a, k),
{
    if k == 0 {
        return Err(NavError::OutOfRange);
    }
    let q: u128 = round_div_magnitudes(magnitude_of(a), magnitude_of(k));
    if (a < 0) != (k < 0) {
        narrow(-(q as i128))
    } else {
        narrow(q as i128)
    }
}

/// The square root of `a`, rounded down to a stored value.
pub fn root(a: i64) -> (r: Result<i64, NavError>)
    ensures
        r == spec_root(a),
        r matches Ok(v) ==> v == root_value(a as int) && is_floor_root(a * ONE, v as int),
{
    if a < 0 {
        Err(NavError::OutOfRange)
    } else {
        let one: u128 = ONE as u128;
        assert(a * one <= 0x8000_0000_0000_0000 * 1_000_000_000_000) by (nonlinear_arith)
            requires
                0 <= a <= 0x8000_0000_0000_0000,
                one == 1_000_000_000_000,
        ;
        let v: u128 = integer_root((a as u128) * one);
        assert(v < 0x10_0000_0000_0000) by (nonlinear_arith)
            requires
                v * v <= a * ONE,
                a <= i64::MAX,
                ONE == 1_000_000_000_000,
                v >= 0,
        ;
        Ok(v as i64)
    }
}

/// A number has one integer square root.
pub proof fn lemma_floor_root_unique(n: int, r: int)
    requires
        is_floor_root(n, r),
    ensures
        floor_root(n) == r,
{
    let s = floor_root(n);
    assert(is_floor_root(n, s));
    assert(s < r + 1) by (nonlinear_arith)
        requires
            0 <= s,
            0 <= r,
            s * s <= n,
            n < (r + 1) * (r + 1),
    ;
    assert(r < s + 1) by (nonlinear_arith)
        requires
            0 <= s,
            0 <= r,
            r * r <= n,
            n < (s + 1) * (s + 1),
    ;
}

/// Every non-negative number has an integer square root.
pub proof fn lemma_floor_root_exists(n: int)
    requires
        0 <= n,
    ensures
        is_floor_root(n, floor_root(n)),
    decreases n,
{
    if n == 0 {
        assert(is_floor_root(0, 0));
    } else {
        lemma_floor_root_exists(n - 1);
        let r = floor_root(n - 1);
        if n < (r + 1) * (r + 1) {
            assert(is_floor_root(n, r));
        } else {
            assert((r + 1) * (r + 1) <= n < (r + 2) * (r + 2)) by (nonlinear_arith)
                requires
                    0 <= r,
                    n - 1 < (r + 1) * (r + 1),
                    n >= (r + 1) * (r + 1),
            ;
            assert(is_floor_root(n, r + 1));
        }
    }
}

/// The integer square root lies between any `lo` whose square is at most `n`
/// and any `hi` whose square is at least `n`.
pub proof fn lemma_floor_root_between(n: int, lo: int, hi: int)
    requires
        0 <= lo,
        0 <= hi,
        lo * lo <= n <= hi * hi,
    ensures
        lo <= floor_root(n) <= hi,
{
    assert(0 <= n) by (nonlinear_arith)
        requires
            lo * lo <= n,
    ;
    lemma_floor_root_exists(n);
    let r = floor_root(n);
    assert(lo < r + 1) by (nonlinear_arith)
        requires
            0 <= lo,
            0 <= r,
            lo * lo <= n,
            n < (r + 1) * (r + 1),
    ;
    assert(r <= hi) by (nonlinear_arith)
        requires
            0 <= hi,
            0 <= r,
            r * r <= n,
            n <= hi * hi,
    ;
}

/// The rounded quotient of a non-negative number by a positive one is not
/// negative, and is at most `k` when the number is at most `k` times the
/// divisor.
pub proof fn lemma_round_div_range(n: int, d: int, k: int)
    requires
        0 <= n <= k * d,
        0 < d,
    ensures
        0 <= round_div(n, d) <= k,
{
    assert(2 * (k * d) + d == k * (2 * d) + d) by (nonlinear_arith);
    lemma_fundamental_div_mod_converse(2 * (k * d) + d, 2 * d, k, d);
    lemma_div_is_ordered(2 * n + d, 2 * (k * d) + d, 2 * d);
    lemma_div_is_ordered(0, 2 * n + d, 2 * d);
    lemma_fundamental_div_mod_converse(0, 2 * d, 0, 0);
}

/// The rounded quotient of a non-negative number by a positive one is at
/// least `k` when the number is at least `k` times the divisor.
pub proof fn lemma_round_div_at_least(n: int, d: int, k: int)
    requires
        0 <= k * d <= n,
        0 < d,
    ensures
        k <= round_div(n, d),
{
    assert(2 * (k * d) + d == k * (2 * d) + d) by (nonlinear_arith);
    lemma_fundamental_div_mod_converse(2 * (k * d) + d, 2 * d, k, d);
    lemma_div_is_ordered(2 * (k * d) + d, 2 * n + d, 2 * d);
}

/// The rounded quotient by a positive divisor does not decrease with the
/// numerator.
pub proof fn lemma_round_div_monotone(n1: int, n2: int, d: int)
    requires
        0 <= n1 <= n2,
        0 < d,
    ensures
        round_div(n1, d) <= round_div(n2, d),
{
    lemma_div_is_ordered(2 * n1 + d, 2 * n2 + d, 2 * d);
}

/// The rounded product has the sign of the exact one.
pub proof fn lemma_product_value_sign(a: int, b: int)
    ensures
        ((a >= 0 && b >= 0) || (a <= 0 && b <= 0)) ==> product_value(a, b) >= 0,
        ((a >= 0 && b <= 0) || (a <= 0 && b >= 0)) ==> product_value(a, b) <= 0,
{
    assert((((a >= 0 && b >= 0) || (a <= 0 && b <= 0)) ==> a * b >= 0) && (((a >= 0 && b <= 0) || (
    a <= 0 && b >= 0)) ==> a * b <= 0)) by (nonlinear_arith);
    lemma_div_is_ordered(0, 2 * magnitude(a * b) + ONE, 2 * ONE);
    lemma_fundamental_div_mod_converse(0, 2 * ONE, 0, 0);
    lemma_round_div_odd(0, ONE as int);
}

/// A quotient is at most `k` in magnitude when the dividend is at most `k`
/// times the divisor in magnitude, and is not negative when dividend and
/// divisor have the same sign.
pub proof fn lemma_quotient_value_range(a: int, b: int, k: int)
    requires
        b != 0,
        magnitude(a) * ONE <= k * magnitude(b),
    ensures
        -k <= quotient_value(a, b) <= k,
        ((a >= 0 && b > 0) || (a <= 0 && b < 0)) ==> quotient_value(a, b) >= 0,
{
    let n = magnitude(a * ONE);
    assert(n == magnitude(a) * ONE && 0 <= n && (a * ONE < 0 <==> a < 0)) by (nonlinear_arith)
        requires
            n == magnitude(a * ONE),
            ONE == 1_000_000_000_000,
    ;
    lemma_round_div_range(n, magnitude(b), k);
    lemma_quotient_value_of_zero(b);
}

/// The rounded product does not depend on the order of its factors, and the
/// product of two non-negative values is not negative.
pub proof fn lemma_product_value_symmetric(a: int, b: int)
    ensures
        product_value(a, b) == product_value(b, a),
        (0 <= a && 0 <= b) ==> 0 <= product_value(a, b),
        0 <= product_value(a, a),
{
    assert(a * b == b * a) by (nonlinear_arith);
    assert(0 <= a * a) by (nonlinear_arith);
    assert((0 <= a && 0 <= b) ==> 0 <= a * b) by (nonlinear_arith);
    lemma_div_is_ordered(0, 2 * magnitude(a * a) + ONE, 2 * ONE);
    lemma_div_is_ordered(0, 2 * magnitude(a * b) + ONE, 2 * ONE);
    lemma_fundamental_div_mod_converse(0, 2 * ONE, 0, 0);
}

/// Rounding is odd in the numerator, and rounds zero to zero.
pub proof fn lemma_round_div_odd(n: int, d: int)
    requires
        d != 0,
    ensures
        round_div(-n, d) == -round_div(n, d),
        round_div(0, d) == 0,
{
    let m = magnitude(d);
    assert((0 + m) / (2 * m) == 0) by {
        lemma_fundamental_div_mod_converse(m, 2 * m, 0, m);
    }
}

/// A multiple of the divisor is divided without rounding.
pub proof fn lemma_round_div_exact(k: int, d: int)
    requires
        d > 0,
    ensures
        round_div(k * d, d) == k,
{
    let a = magnitude(k);
    assert(magnitude(k * d) == a * d) by (nonlinear_arith)
        requires
            d > 0,
            a == magnitude(k),
    ;
    assert(2 * (a * d) + d == a * (2 * d) + d) by (nonlinear_arith);
    lemma_fundamental_div_mod_converse(2 * (a * d) + d, 2 * d, a, d);
    assert((k * d < 0) == (k < 0)) by (nonlinear_arith)
        requires
            d > 0,
    ;
}

/// The rounded quotient of a non-negative `n` by a positive `d` is the `q`
/// whose multiple of `d` lies within half of `d` of `n`.
pub proof fn lemma_round_div_nearest(n: int, d: int, q: int)
    requires
        0 <= n,
        0 < d,
        2 * (q * d) - d <= 2 * n < 2 * (q * d) + d,
    ensures
        round_div(n, d) == q,
{
    assert(2 * n + d == q * (2 * d) + (2 * n + d - 2 * (q * d))) by (nonlinear_arith);
    lemma_fundamental_div_mod_converse(2 * n + d, 2 * d, q, 2 * n + d - 2 * (q * d));
}

/// A quotient by a divisor that is no smaller than the dividend's magnitude
/// lies between minus one and one.
pub proof fn lemma_quotient_value_unit(a: int, h: int)
    requires
        0 < h,
        magnitude(a) <= h,
    ensures
        -ONE <= quotient_value(a, h) <= ONE,
{
    assert(magnitude(a) * ONE <= ONE * magnitude(h)) by (nonlinear_arith)
        requires
            0 < h,
            0 <= magnitude(a) <= h,
            ONE == 1_000_000_000_000,
    ;
    lemma_quotient_value_range(a, h, ONE as int);
}

/// A product with a factor between minus one and one is no larger than the
/// other factor.
pub proof fn lemma_product_value_contracts(a: int, b: int)
    requires
        magnitude(b) <= ONE,
    ensures
        magnitude(product_value(a, b)) <= magnitude(a),
{
    lemma_product_value_bound(a, b, magnitude(a), 1);
}

/// A product of a factor of magnitude at most `ka` with one of magnitude at
/// most `m` whole units is at most `m * ka` in magnitude.
pub proof fn lemma_product_value_bound(a: int, b: int, ka: int, m: int)
    requires
        magnitude(a) <= ka,
        magnitude(b) <= m * ONE,
    ensures
        -(m * ka) <= product_value(a, b) <= m * ka,
{
    let n = magnitude(a * b);
    assert(0 <= n <= (m * ka) * ONE) by (nonlinear_arith)
        requires
            n == magnitude(a * b),
            magnitude(a) <= ka,
            magnitude(b) <= m * ONE,
            ONE == 1_000_000_000_000,
    ;
    lemma_round_div_range(n, ONE as int, m * ka);
}

/// A rounded product, scaled back up, exceeds the exact product's
/// magnitude by at most half a unit.
pub proof fn lemma_product_value_rounding(a: int, b: int)
    ensures
        magnitude(product_value(a, b)) * ONE <= magnitude(a) * magnitude(b) + ONE / 2,
{
    let m = magnitude(a * b);
    assert(m == magnitude(a) * magnitude(b)) by (nonlinear_arith)
        requires
            m == magnitude(a * b),
    ;
    let q = (2 * m + ONE) / (2 * ONE);
    let rest = (2 * m + ONE) % (2 * ONE);
    lemma_fundamental_div_mod(2 * m + ONE, 2 * ONE);
    lemma_mod_pos_bound(2 * m + ONE, 2 * ONE);
    assert(0 <= q) by {
        lemma_div_is_ordered(0, 2 * m + ONE, 2 * ONE);
        lemma_fundamental_div_mod_converse(0, 2 * ONE, 0, 0);
    }
    assert(magnitude(product_value(a, b)) == q);
    assert(q * ONE <= m + ONE / 2) by (nonlinear_arith)
        requires
            2 * m + ONE == (2 * ONE) * q + rest,
            0 <= rest,
            ONE == 1_000_000_000_000,
    ;
}

/// A rounded product, scaled back up, is within half a unit of the exact
/// product.
pub proof fn lemma_product_value_error(a: int, b: int)
    ensures
        -(ONE / 2) <= product_value(a, b) * ONE - a * b <= ONE / 2,
{
    let m = magnitude(a * b);
    let q = (2 * m + ONE) / (2 * ONE);
    let rest = (2 * m + ONE) % (2 * ONE);
    lemma_fundamental_div_mod(2 * m + ONE, 2 * ONE);
    lemma_mod_pos_bound(2 * m + ONE, 2 * ONE);
    assert(-(ONE / 2) <= q * ONE - m <= ONE / 2) by (nonlinear_arith)
        requires
            2 * m + ONE == (2 * ONE) * q + rest,
            0 <= rest < 2 * ONE,
            ONE == 1_000_000_000_000,
    ;
    assert((-q) * ONE == -(q * ONE)) by (nonlinear_arith);
}

/// A rounded quotient, times the divisor, is within half the divisor of
/// the scaled dividend.
pub proof fn lemma_quotient_value_error(a: int, h: int)
    requires
        0 < h,
    ensures
        -h <= 2 * (quotient_value(a, h) * h - a * ONE) <= h,
{
    let m = magnitude(a * ONE);
    let q = (2 * m + h) / (2 * h);
    let rest = (2 * m + h) % (2 * h);
    lemma_fundamental_div_mod(2 * m + h, 2 * h);
    lemma_mod_pos_bound(2 * m + h, 2 * h);
    assert(-h <= 2 * (q * h - m) <= h) by (nonlinear_arith)
        requires
            2 * m + h == (2 * h) * q + rest,
            0 <= rest < 2 * h,
    ;
    assert((-q) * h == -(q * h)) by (nonlinear_arith);
}

/// A quotient by one is the dividend, by minus one its opposite, and a
/// value over its own magnitude is one or minus one.
pub proof fn lemma_quotient_value_units(a: int)
    ensures
        quotient_value(a, ONE as int) == a,
        quotient_value(a, -ONE) == -a,
        a > 0 ==> quotient_value(a, a) == ONE,
        a != 0 ==> quotient_value(a, magnitude(a)) == if a < 0 {
            -ONE
        } else {
            ONE as int
        },
{
    lemma_round_div_exact(a, ONE as int);
    assert(magnitude(-ONE) == ONE);
    if a != 0 {
        let m = magnitude(a);
        lemma_round_div_exact(ONE as int, m);
        assert(magnitude(a * ONE) == ONE * m && (a * ONE < 0 <==> a < 0)) by (nonlinear_arith)
            requires
                m == magnitude(a),
                ONE == 1_000_000_000_000,
        ;
    }
}

/// The rounded product changes sign with either factor, and keeps it with
/// both.
pub proof fn lemma_product_value_negations(a: int, b: int)
    ensures
        product_value(-a, b) == -product_value(a, b),
        product_value(a, -b) == -product_value(a, b),
        product_value(-a, -b) == product_value(a, b),
{
    lemma_product_value_odd(a, b);
    lemma_product_value_odd(b, a);
    lemma_product_value_symmetric(a, b);
    lemma_product_value_symmetric(a, -b);
    lemma_product_value_odd(a, -b);
}

/// Zero annihilates and one is neutral in the rounded product.
pub proof fn lemma_product_value_units(a: int)
    ensures
        product_value(0, a) == 0,
        product_value(a, 0) == 0,
        product_value(ONE as int, a) == a,
        product_value(a, ONE as int) == a,
{
    assert(0 * a == 0 && a * 0 == 0);
    lemma_round_div_odd(0, ONE as int);
    assert(ONE * a == a * ONE) by (nonlinear_arith);
    lemma_round_div_exact(a, ONE as int);
}

/// Zero over anything but zero is zero.
pub proof fn lemma_quotient_value_of_zero(b: int)
    requires
        b != 0,
    ensures
        quotient_value(0, b) == 0,
{
    assert(0 * ONE == 0);
    lemma_round_div_odd(0, b);
}

/// The rounded product is odd in its first factor.
pub proof fn lemma_product_value_odd(a: int, b: int)
    ensures
        product_value(-a, b) == -product_value(a, b),
{
    assert((-a) * b == -(a * b)) by (nonlinear_arith);
    lemma_round_div_odd(a * b, ONE as int);
}

} // verus!
