//! Saturating integer arithmetic used by the combat model.
//!
//! Every derived combat value (effective attribute, damage, defense) is a
//! `u64` computed with saturation at `u64::MAX`, so the model is total and
//! bit-identical on every platform.

use vstd::prelude::*;

verus! {

/// Mathematical value of `a + b` clamped to the `u64` range.
pub open spec fn sat_add_spec(a: int, b: int) -> int {
    if a + b > u64::MAX {
        u64::MAX as int
    } else {
        a + b
    }
}

/// Mathematical value of `a * b` clamped to the `u64` range.
pub open spec fn sat_mul_spec(a: int, b: int) -> int {
    if a * b > u64::MAX {
        u64::MAX as int
    } else {
        a * b
    }
}

pub fn sat_add(a: u64, b: u64) -> (r: u64)
    ensures
        r == sat_add_spec(a as int, b as int),
{
    if a > u64::MAX - b {
        u64::MAX
    } else {
        a + b
    }
}

proof fn lemma_mul_le(a: int, b: int, c: int)
    by (nonlinear_arith)
    requires
        0 <= a,
        0 <= b,
        0 < c,
        a <= b / c,
    ensures
        a * c <= b,
{
}

proof fn lemma_mul_gt(a: int, b: int, c: int)
    by (nonlinear_arith)
    requires
        0 <= a,
        0 <= b,
        0 < c,
        a > b / c,
    ensures
        a * c > b,
{
}

pub fn sat_mul(a: u64, b: u64) -> (r: u64)
    ensures
        r == sat_mul_spec(a as int, b as int),
{
    if b == 0 {
        0
    } else if a > u64::MAX / b {
        proof {
            lemma_mul_gt(a as int, u64::MAX as int, b as int);
        }
        u64::MAX
    } else {
        proof {
            lemma_mul_le(a as int, u64::MAX as int, b as int);
        }
        a * b
    }
}

/// Subtraction clamped at zero: `a - min(a, b)`.
pub open spec fn sub_clamped_spec(a: int, b: int) -> int {
    if b > a {
        0
    } else {
        a - b
    }
}

pub fn sub_clamped(a: u64, b: u64) -> (r: u64)
    ensures
        r == sub_clamped_spec(a as int, b as int),
{
    if b > a {
        0
    } else {
        a - b
    }
}

} // verus!
