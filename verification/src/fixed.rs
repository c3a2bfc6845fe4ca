//! Fixed-point helpers shared by the whole crate.
//!
//! A milli-value `v` stands for the real number `v / 1000`. Products of two
//! milli-values are rescaled by a truncating division by `1000`, the same
//! rounding (toward zero) that the hardware gives a native signed division.

use vstd::prelude::*;

verus! {

/// Truncating (toward-zero) division of `p` by 1000, the milli rescaling step.
pub open spec fn tdiv_milli(p: int) -> int {
    if p >= 0 {
        p / 1000
    } else {
        -((-p) / 1000)
    }
}

/// The product of two milli-values, rescaled back to milli: the fixed-point
/// multiplication `a * b / 1000` with truncation toward zero.
pub open spec fn mul_milli(a: int, b: int) -> int {
    tdiv_milli(a * b)
}

/// Rescaling never grows a value's magnitude.
pub proof fn lemma_tdiv_milli_bounds(p: int)
    ensures
        p >= 0 ==> 0 <= tdiv_milli(p) <= p,
        p < 0 ==> p <= tdiv_milli(p) <= 0,
{
}

/// A bound on the operand rescales to a bound on the result.
pub proof fn lemma_tdiv_milli_range(p: int, m: int)
    requires
        0 <= m,
        -m <= p <= m,
    ensures
        -(m / 1000) <= tdiv_milli(p) <= m / 1000,
{
    if p >= 0 {
        vstd::arithmetic::div_mod::lemma_div_is_ordered(p, m, 1000);
        vstd::arithmetic::div_mod::lemma_div_pos_is_pos(p, 1000);
    } else {
        vstd::arithmetic::div_mod::lemma_div_is_ordered(-p, m, 1000);
        vstd::arithmetic::div_mod::lemma_div_pos_is_pos(-p, 1000);
    }
}

/// Truncating rescaling is monotone.
pub proof fn lemma_tdiv_milli_mono(a: int, b: int)
    requires
        a <= b,
    ensures
        tdiv_milli(a) <= tdiv_milli(b),
{
    if 0 <= a {
        vstd::arithmetic::div_mod::lemma_div_is_ordered(a, b, 1000);
    } else if b < 0 {
        vstd::arithmetic::div_mod::lemma_div_is_ordered(-b, -a, 1000);
    } else {
        vstd::arithmetic::div_mod::lemma_div_pos_is_pos(-a, 1000);
        vstd::arithmetic::div_mod::lemma_div_pos_is_pos(b, 1000);
    }
}

/// Fixed-point multiply: `a * b / 1000`, truncated toward zero.
pub fn mul_div_milli(a: i64, b: i64) -> (r: i64)
    requires
        -0x4000_0000_0000_0000 <= a * b <= 0x4000_0000_0000_0000,
    ensures
        r == mul_milli(a as int, b as int),
{
    let p: i128 = (a as i128) * (b as i128);
    let q: i128 = if p >= 0 { p / 1000 } else { -((-p) / 1000) };
    q as i64
}

/// Fixed-point multiply for wide operands: `a * b / 1000`, truncated toward
/// zero, computed through a 128-bit product.
pub fn mul_div_milli_wide(a: i64, b: i64) -> (r: i64)
    requires
        -9_000_000_000_000_000_000_000 <= a * b <= 9_000_000_000_000_000_000_000,
    ensures
        r == mul_milli(a as int, b as int),
{
    let p: i128 = (a as i128) * (b as i128);
    let q: i128 = if p >= 0 {
        p / 1000
    } else {
        -((-p) / 1000)
    };
    q as i64
}

/// Clamp `v` into `[lo, hi]`.
pub fn clamp_i64(v: i64, lo: i64, hi: i64) -> (r: i64)
    requires
        lo <= hi,
    ensures
        r == clamped(v as int, lo as int, hi as int),
{
    if v < lo {
        lo
    } else if v > hi {
        hi
    } else {
        v
    }
}

/// The value of `v` clamped into `[lo, hi]`.
pub open spec fn clamped(v: int, lo: int, hi: int) -> int {
    if v < lo {
        lo
    } else if v > hi {
        hi
    } else {
        v
    }
}

} // verus!
