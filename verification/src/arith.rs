//! Saturating 64-bit signed arithmetic.
//!
//! Addition, subtraction and multiplication clamp to the nearest
//! representable value instead of wrapping. Division truncates toward zero;
//! a zero divisor saturates toward the sign of the dividend, and the one
//! overflowing quotient, `i64::MIN / -1`, saturates to `i64::MAX`.
//!
//! Each operation is built the way a two's-complement backend has to build
//! it: an overflow-detecting primitive first, then a branch on the signs of
//! the operands that picks the bound.

use vstd::arithmetic::div_mod::{
    lemma_div_basics, lemma_div_decreases, lemma_div_nonincreasing, lemma_div_pos_is_pos,
};
use vstd::prelude::*;

verus! {

/// `n` clamped to the range of `i64`.
pub open spec fn clamp(n: int) -> int {
    if n > i64::MAX {
        i64::MAX as int
    } else if n < i64::MIN {
        i64::MIN as int
    } else {
        n
    }
}

/// The quotient of `x` by `d` rounded toward zero, for `d != 0`.
pub open spec fn truncated_quotient(x: int, d: int) -> int
    recommends
        d != 0,
{
    if x >= 0 && d > 0 {
        x / d
    } else if x < 0 && d < 0 {
        (-x) / (-d)
    } else if x < 0 {
        -((-x) / d)
    } else {
        -(x / (-d))
    }
}

/// The value that dividing by zero yields: the bound on the dividend's side.
pub open spec fn zero_divisor_sentinel(x: int) -> int {
    if x < 0 {
        i64::MIN as int
    } else {
        i64::MAX as int
    }
}

/// The mathematical meaning of saturating division.
pub open spec fn saturating_quotient(x: int, d: int) -> int {
    if d == 0 {
        zero_divisor_sentinel(x)
    } else {
        clamp(truncated_quotient(x, d))
    }
}

/// A truncated quotient is no greater in magnitude than the dividend.
pub proof fn lemma_truncated_quotient_bounds(x: int, d: int)
    requires
        d != 0,
    ensures
        x >= 0 ==> -x <= truncated_quotient(x, d) <= x,
        x < 0 ==> x <= truncated_quotient(x, d) <= -x,
        (x >= 0) == (d > 0) ==> truncated_quotient(x, d) >= 0,
        (x >= 0) != (d > 0) ==> truncated_quotient(x, d) <= 0,
        x < 0 && d < -1 ==> truncated_quotient(x, d) < -x,
        d == -1 ==> truncated_quotient(x, d) == -x,
{
    lemma_div_basics(x);
    lemma_div_basics(-x);
    if x >= 0 && d > 0 {
        lemma_div_pos_is_pos(x, d);
        lemma_div_nonincreasing(x, d);
    } else if x < 0 && d < 0 {
        lemma_div_pos_is_pos(-x, -d);
        lemma_div_nonincreasing(-x, -d);
        if d < -1 {
            lemma_div_decreases(-x, -d);
        }
    } else if x < 0 {
        lemma_div_pos_is_pos(-x, d);
        lemma_div_nonincreasing(-x, d);
    } else {
        lemma_div_pos_is_pos(x, -d);
        lemma_div_nonincreasing(x, -d);
    }
}

/// A clamped number lies in the range of `i64`, and is the number itself
/// where that lies in the range.
pub proof fn lemma_clamp(n: int)
    ensures
        i64::MIN <= clamp(n) <= i64::MAX,
        i64::MIN <= n <= i64::MAX ==> clamp(n) == n,
        n > i64::MAX ==> clamp(n) == i64::MAX,
        n < i64::MIN ==> clamp(n) == i64::MIN,
{
}

/// Saturating addition: the sum where it is representable, else the bound
/// on the side on which it is not.
pub fn sat_add(x: i64, y: i64) -> (r: i64)
    ensures
        r == clamp(x + y),
        i64::MIN <= x + y <= i64::MAX ==> r == x + y,
{
    match x.checked_add(y) {
        Some(v) => v,
        None => if y >= 0 {
            i64::MAX
        } else {
            i64::MIN
        },
    }
}

/// Saturating subtraction: the difference where it is representable,
/// else the bound on the side on which it is not.
pub fn sat_sub(x: i64, y: i64) -> (r: i64)
    ensures
        r == clamp(x - y),
        i64::MIN <= x - y <= i64::MAX ==> r == x - y,
{
    match x.checked_sub(y) {
        Some(v) => v,
        None => if y >= 0 {
            i64::MIN
        } else {
            i64::MAX
        },
    }
}

/// A product of two integers is negative only if their signs differ, and
/// positive only if they agree.
pub proof fn lemma_product_sign(x: int, y: int)
    ensures
        (x < 0) != (y < 0) ==> x * y <= 0,
        (x < 0) == (y < 0) ==> x * y >= 0,
{
    assert((x < 0) != (y < 0) ==> x * y <= 0) by (nonlinear_arith);
    assert((x < 0) == (y < 0) ==> x * y >= 0) by (nonlinear_arith);
}

/// Saturating multiplication: the product where it is representable,
/// else the bound on the side on which it is not.
pub fn sat_mul(x: i64, y: i64) -> (r: i64)
    ensures
        r == clamp(x * y),
        i64::MIN <= x * y <= i64::MAX ==> r == x * y,
{
    proof {
        lemma_product_sign(x as int, y as int);
    }
    match x.checked_mul(y) {
        Some(v) => v,
        None => if (x < 0) != (y < 0) {
            i64::MIN
        } else {
            i64::MAX
        },
    }
}

/// Saturating division: the quotient rounded toward zero; for a zero
/// divisor the bound on the dividend's side; for `i64::MIN / -1` the
/// greatest value.
pub fn sat_div(x: i64, d: i64) -> (r: i64)
    ensures
        r == saturating_quotient(x as int, d as int),
        d == 0 ==> r == zero_divisor_sentinel(x as int),
        d != 0 && !(x == i64::MIN && d == -1) ==> r == truncated_quotient(x as int, d as int),
        x == i64::MIN && d == -1 ==> r == i64::MAX,
{
    proof {
        if d != 0 {
            lemma_truncated_quotient_bounds(x as int, d as int);
        }
    }
    match x.checked_div(d) {
        Some(v) => v,
        None => {
            if (x < 0) != (d < 0) {
                i64::MIN
            } else {
                i64::MAX
            }
        },
    }
}

} // verus!
