//! Fixed-point scalars. A quantity `q` stands for the real number
//! `q / SCALE`; multiplication and division rescale by `SCALE` and
//! truncate toward zero.

use vstd::prelude::*;

verus! {

/// One game unit, as a fixed-point integer.
pub const SCALE: i64 = 1_000_000;

/// Largest product magnitude that fits in an `i64`.
pub const PRODUCT_LIMIT: i64 = 0x7fff_ffff_ffff_ffff;

/// What `fp_mul` returns: the product, scaled back down by `SCALE`,
/// truncated toward zero.
pub open spec fn fp_mul_s(a: int, b: int) -> int {
    if a * b >= 0 {
        (a * b) / (SCALE as int)
    } else {
        -((-(a * b)) / (SCALE as int))
    }
}

/// Fixed-point product of `a` and `b`.
pub fn fp_mul(a: i64, b: i64) -> (r: i64)
    requires
        -PRODUCT_LIMIT <= a * b <= PRODUCT_LIMIT,
    ensures
        r == fp_mul_s(a as int, b as int),
{
    let p: i64 = a * b;
    if p >= 0 {
        (p as u64 / (SCALE as u64)) as i64
    } else {
        -(((-p) as u64 / (SCALE as u64)) as i64)
    }
}

/// What `fp_div` returns: `a / b` in game units, truncated toward zero
/// (both arguments nonnegative).
pub open spec fn fp_div_s(a: int, b: int) -> int
    recommends
        b > 0,
{
    (a * (SCALE as int)) / b
}

/// Fixed-point quotient of the nonnegative `a` by the positive `b`.
pub fn fp_div(a: i64, b: i64) -> (r: i64)
    requires
        0 <= a,
        0 < b,
        a * SCALE <= PRODUCT_LIMIT,
    ensures
        r == fp_div_s(a as int, b as int),
{
    ((a as u64 * (SCALE as u64)) / (b as u64)) as i64
}

/// What `clamp_fx` returns: `x` forced into `[lo, hi]`.
pub open spec fn clamp_s(x: int, lo: int, hi: int) -> int {
    if x < lo {
        lo
    } else if x > hi {
        hi
    } else {
        x
    }
}

/// Forces `x` into the interval `[lo, hi]`.
pub fn clamp_fx(x: i64, lo: i64, hi: i64) -> (r: i64)
    requires
        lo <= hi,
    ensures
        r == clamp_s(x as int, lo as int, hi as int),
{
    if x < lo {
        lo
    } else if x > hi {
        hi
    } else {
        x
    }
}

/// The unit with the sign of `x`, where zero counts as positive.
pub open spec fn signum_fx_s(x: int) -> int {
    if x >= 0 {
        SCALE as int
    } else {
        -(SCALE as int)
    }
}

/// Fixed-point unit carrying the sign of `x`; zero counts as positive.
pub fn signum_fx(x: i64) -> (r: i64)
    ensures
        r == signum_fx_s(x as int),
{
    if x >= 0 {
        SCALE
    } else {
        -SCALE
    }
}

/// Bounds on a product of bounded factors.
pub proof fn lemma_abs_product_le(a: int, b: int, aa: int, bb: int)
    by (nonlinear_arith)
    requires
        -aa <= a <= aa,
        -bb <= b <= bb,
    ensures
        -(aa * bb) <= a * b <= aa * bb,
{
}

/// A fixed-point product of bounded factors is bounded by the scaled-down
/// product of the bounds.
pub proof fn lemma_fp_mul_bound(a: int, b: int, aa: int, bb: int)
    requires
        -aa <= a <= aa,
        -bb <= b <= bb,
    ensures
        -((aa * bb) / (SCALE as int)) <= fp_mul_s(a, b) <= (aa * bb) / (SCALE as int),
{
    lemma_abs_product_le(a, b, aa, bb);
    if a * b >= 0 {
        vstd::arithmetic::div_mod::lemma_div_is_ordered(a * b, aa * bb, SCALE as int);
        vstd::arithmetic::div_mod::lemma_div_pos_is_pos(a * b, SCALE as int);
    } else {
        vstd::arithmetic::div_mod::lemma_div_is_ordered(-(a * b), aa * bb, SCALE as int);
        vstd::arithmetic::div_mod::lemma_div_pos_is_pos(-(a * b), SCALE as int);
    }
}

} // verus!
