//! Q20 fixed-point arithmetic: the numeric base of the whole engine.
//!
//! A value `v: i64` stands for the real number `v / FP_ONE`. All products
//! and quotients truncate toward zero, exactly as the spec functions here
//! describe, so higher layers can state their behaviour precisely.

use vstd::prelude::*;

verus! {

/// The fixed-point representation of 1.0 (2^20).
pub const FP_ONE: i64 = 1048576;

/// The fixed-point representation of 0.5.
pub const FP_HALF: i64 = 524288;

/// The fixed-point representation of 0.25.
pub const FP_QUARTER: i64 = 262144;

/// Truncating division (round toward zero), defined for positive divisors.
pub open spec fn div_trunc(n: int, d: int) -> int
    recommends
        d > 0,
{
    if n >= 0 {
        n / d
    } else {
        -((-n) / d)
    }
}

/// `a * b` scaled back down to Q20, truncating toward zero.
pub open spec fn mul_fp_sp(a: int, b: int) -> int {
    div_trunc(a * b, FP_ONE as int)
}

/// Clamp `v` into `[lo, hi]` (for `lo <= hi`).
pub open spec fn clamp_sp(v: int, lo: int, hi: int) -> int {
    if v < lo {
        lo
    } else if v > hi {
        hi
    } else {
        v
    }
}

/// Truncating division by a positive divisor.
pub fn div_fp(n: i64, d: i64) -> (r: i64)
    requires
        d >= 1,
        n > i64::MIN,
    ensures
        r as int == div_trunc(n as int, d as int),
        n >= 0 ==> 0 <= r <= n,
        n < 0 ==> n <= r <= 0,
{
    proof {
        lemma_div_trunc_range(n as int, d as int);
    }
    if n >= 0 {
        let q: u64 = (n as u64) / (d as u64);
        q as i64
    } else {
        let q: u64 = ((-n) as u64) / (d as u64);
        -(q as i64)
    }
}

proof fn lemma_div_trunc_range(n: int, d: int)
    requires
        d >= 1,
    ensures
        n >= 0 ==> 0 <= div_trunc(n, d) <= n,
        n < 0 ==> n <= div_trunc(n, d) <= 0,
{
    if n >= 0 {
        vstd::arithmetic::div_mod::lemma_div_is_ordered_by_denominator(n, 1, d);
        vstd::arithmetic::div_mod::lemma_div_basics(n);
    } else {
        vstd::arithmetic::div_mod::lemma_div_is_ordered_by_denominator(-n, 1, d);
        vstd::arithmetic::div_mod::lemma_div_basics(-n);
    }
}

/// Truncating division is monotone in the magnitude of the numerator:
/// if `|n| <= m` then `|div_trunc(n, d)| <= m / d`.
pub proof fn lemma_div_trunc_bound(n: int, d: int, m: int)
    requires
        d >= 1,
        0 <= m,
        -m <= n <= m,
    ensures
        -(m / d) <= div_trunc(n, d) <= m / d,
{
    if n >= 0 {
        vstd::arithmetic::div_mod::lemma_div_is_ordered(n, m, d);
        vstd::arithmetic::div_mod::lemma_div_pos_is_pos(n, d);
        vstd::arithmetic::div_mod::lemma_div_pos_is_pos(m, d);
    } else {
        vstd::arithmetic::div_mod::lemma_div_is_ordered(-n, m, d);
        vstd::arithmetic::div_mod::lemma_div_pos_is_pos(-n, d);
        vstd::arithmetic::div_mod::lemma_div_pos_is_pos(m, d);
    }
}

/// A product bound for the Q20 multiply: with `|a| <= ca` and `|b| <= cb`,
/// the scaled product stays within `ca * cb / FP_ONE`.
pub proof fn lemma_mul_fp_bound(a: int, b: int, ca: int, cb: int)
    requires
        0 <= ca,
        0 <= cb,
        -ca <= a <= ca,
        -cb <= b <= cb,
    ensures
        -(ca * cb / (FP_ONE as int)) <= mul_fp_sp(a, b) <= ca * cb / (FP_ONE as int),
        -(ca * cb) <= a * b <= ca * cb,
{
    assert(-(ca * cb) <= a * b <= ca * cb) by (nonlinear_arith)
        requires
            0 <= ca,
            0 <= cb,
            -ca <= a <= ca,
            -cb <= b <= cb,
    ;
    lemma_div_trunc_bound(a * b, FP_ONE as int, ca * cb);
}

/// Q20 multiply, truncating toward zero.
pub fn mul_fp(a: i64, b: i64) -> (r: i64)
    requires
        -0x4000_0000_0000_0000 <= a as int * b as int <= 0x4000_0000_0000_0000,
    ensures
        r as int == mul_fp_sp(a as int, b as int),
{
    let p: i64 = a * b;
    div_fp(p, FP_ONE)
}

/// Clamp `v` into `[lo, hi]`.
pub fn clamp_fp(v: i64, lo: i64, hi: i64) -> (r: i64)
    ensures
        r as int == clamp_sp(v as int, lo as int, hi as int),
{
    if v < lo {
        lo
    } else if v > hi {
        hi
    } else {
        v
    }
}

/// An exact quotient: `(q * d) / d == q` for a positive divisor.
pub proof fn lemma_div_exact(q: int, d: int)
    requires
        d >= 1,
    ensures
        (q * d) / d == q,
{
    vstd::arithmetic::div_mod::lemma_div_multiples_vanish(q, d);
    assert(q * d == d * q) by (nonlinear_arith);
}

/// Multiplying by exactly `FP_ONE` loses nothing.
pub proof fn lemma_mul_fp_one(b: int)
    ensures
        mul_fp_sp(FP_ONE as int, b) == b,
        mul_fp_sp(b, FP_ONE as int) == b,
{
    let one = FP_ONE as int;
    assert(one * b == b * one) by (nonlinear_arith);
    if b >= 0 {
        assert((b * one) / one == b) by (nonlinear_arith)
            requires
                one > 0,
                b >= 0,
        ;
    } else {
        assert(-(b * one) == (-b) * one) by (nonlinear_arith);
        assert(((-b) * one) / one == -b) by (nonlinear_arith)
            requires
                one > 0,
                b < 0,
        ;
    }
}

/// Dividing a value scaled by `FP_ONE` by itself yields exactly `FP_ONE`.
pub proof fn lemma_div_self_scaled(a: int)
    requires
        a >= 1,
    ensures
        div_trunc(a * FP_ONE as int, a) == FP_ONE as int,
{
    let one = FP_ONE as int;
    assert(a * one >= 0) by (nonlinear_arith)
        requires
            a >= 1,
            one > 0,
    ;
    assert((a * one) / a == one) by (nonlinear_arith)
        requires
            a >= 1,
            one > 0,
    ;
}

} // verus!
