//! Saturating arithmetic on signed integers.

use vstd::arithmetic::div_mod::{lemma_fundamental_div_mod, lemma_mod_bound};
use vstd::prelude::*;

verus! {

/// `x` forced into `low..=high`.
pub open spec fn clamped(x: int, low: int, high: int) -> int {
    if x < low {
        low
    } else if x > high {
        high
    } else {
        x
    }
}

/// `x` forced into the range of `i64`.
pub open spec fn clamped_i64(x: int) -> int {
    clamped(x, i64::MIN as int, i64::MAX as int)
}

/// `x` forced into the range of `i32`.
pub open spec fn clamped_i32(x: int) -> int {
    clamped(x, i32::MIN as int, i32::MAX as int)
}

/// The quotient `a / b` rounded toward zero, for a positive `b`.
pub open spec fn truncated_quotient(a: int, b: int) -> int {
    if a >= 0 {
        a / b
    } else {
        -((-a) / b)
    }
}

pub fn saturating_add_i64(a: i64, b: i64) -> (r: i64)
    ensures
        r == clamped_i64(a + b),
{
    match a.checked_add(b) {
        Some(sum) => sum,
        None => if b < 0 {
            i64::MIN
        } else {
            i64::MAX
        },
    }
}

pub fn saturating_sub_i64(a: i64, b: i64) -> (r: i64)
    ensures
        r == clamped_i64(a - b),
{
    match a.checked_sub(b) {
        Some(difference) => difference,
        None => if b < 0 {
            i64::MAX
        } else {
            i64::MIN
        },
    }
}

pub fn saturating_mul_i64(a: i64, b: i64) -> (r: i64)
    ensures
        r == clamped_i64(a * b),
{
    match a.checked_mul(b) {
        Some(product) => product,
        None => {
            assert((a < 0) == (b < 0) ==> a * b >= 0) by (nonlinear_arith);
            assert((a < 0) != (b < 0) ==> a * b <= 0) by (nonlinear_arith);
            if (a < 0) == (b < 0) {
                i64::MAX
            } else {
                i64::MIN
            }
        },
    }
}

pub fn saturating_add_i32(a: i32, b: i32) -> (r: i32)
    ensures
        r == clamped_i32(a + b),
{
    match a.checked_add(b) {
        Some(sum) => sum,
        None => if b < 0 {
            i32::MIN
        } else {
            i32::MAX
        },
    }
}

/// Forcing a number into a range gives the number of the range that is nearest to
/// it.
pub proof fn law_clamped_is_nearest(x: int, low: int, high: int)
    requires
        low <= high,
    ensures
        low <= clamped(x, low, high) <= high,
        clamped(x, low, high) < x ==> clamped(x, low, high) == high,
        x < clamped(x, low, high) ==> clamped(x, low, high) == low,
        i64::MIN <= clamped_i64(x) <= i64::MAX,
        i64::MIN <= x <= i64::MAX ==> clamped_i64(x) == x,
        i32::MIN <= clamped_i32(x) <= i32::MAX,
        i32::MIN <= x <= i32::MAX ==> clamped_i32(x) == x,
{
}

/// Rounding toward zero leaves a rest that is smaller than the divisor and on the
/// same side of zero as the dividend.
pub proof fn law_quotient_rounds_toward_zero(a: int, b: int)
    requires
        b > 0,
    ensures
        a >= 0 ==> 0 <= a - truncated_quotient(a, b) * b < b,
        a <= 0 ==> -b < a - truncated_quotient(a, b) * b <= 0,
{
    let q = truncated_quotient(a, b);
    if a >= 0 {
        lemma_fundamental_div_mod(a, b);
        lemma_mod_bound(a, b);
        assert(a - q * b == a % b) by (nonlinear_arith)
            requires
                a == b * q + a % b,
        ;
    } else {
        lemma_fundamental_div_mod(-a, b);
        lemma_mod_bound(-a, b);
        assert(a - q * b == -((-a) % b)) by (nonlinear_arith)
            requires
                -a == b * (-q) + (-a) % b,
        ;
    }
    if a == 0 {
        lemma_fundamental_div_mod(0, b);
    }
}

} // verus!
