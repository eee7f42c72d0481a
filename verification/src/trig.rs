//! Q20 approximations of the transcendental functions the synthesizer needs:
//! sine and cosine on whole turns, base-2 exponential, square root and a
//! saturating hyperbolic tangent. Each executable function returns exactly
//! the value of its spec mirror, so the rest of the engine can reason about
//! the arithmetic, and every result carries a proven range.

use vstd::arithmetic::div_mod::{
    lemma_div_is_ordered, lemma_div_is_ordered_by_denominator, lemma_div_pos_is_pos,
    lemma_fundamental_div_mod, lemma_mod_bound,
};
use vstd::arithmetic::power2::{lemma2_to64, lemma_pow2_pos, lemma_pow2_strictly_increases, pow2};
use vstd::prelude::*;

use crate::fixed::{
    clamp_fp, clamp_sp, div_fp, div_trunc, lemma_div_exact, lemma_div_trunc_bound,
    lemma_mul_fp_bound, mul_fp, mul_fp_sp, FP_HALF, FP_ONE, FP_QUARTER,
};

verus! {

/// sqrt(2) in Q20.
pub const SQRT2_FP: i64 = 1482910;

/// 2 * pi in Q20.
pub const TAU_FP: i64 = 6588397;

/// Cubic coefficients for 2^f on [0, 1); they sum to FP_ONE so the
/// polynomial is exactly 1 at f = 0 and exactly 2 at f = 1.
pub const EXP2_C1: i64 = 729734;

pub const EXP2_C2: i64 = 235873;

pub const EXP2_C3: i64 = 82969;

/// Rational approximation of sin(pi * u / FP_ONE) for u in [0, FP_ONE]:
/// 16w / (5 - 4w) with w = u(1 - u), all in Q20.
pub open spec fn sin_half_sp(u: int) -> int {
    let w = mul_fp_sp(u, FP_ONE as int - u);
    div_trunc(16 * w * (FP_ONE as int), 5 * (FP_ONE as int) - 4 * w)
}

/// sin of `p` turns (p in [0, FP_ONE) is one full cycle), in Q20.
pub open spec fn sin_turn_sp(p: int) -> int {
    if p < FP_HALF as int {
        sin_half_sp(2 * p)
    } else {
        -sin_half_sp(2 * (p - FP_HALF as int))
    }
}

/// cos of `p` turns, via the quarter-turn phase shift.
pub open spec fn cos_turn_sp(p: int) -> int {
    sin_turn_sp((p + FP_QUARTER as int) % (FP_ONE as int))
}

proof fn lemma_sin_half_range(u: int)
    requires
        0 <= u <= FP_ONE as int,
    ensures
        0 <= sin_half_sp(u) <= FP_ONE as int,
{
    let one = FP_ONE as int;
    let w = mul_fp_sp(u, one - u);
    // u(1 - u) peaks at one quarter: 274877906944 == FP_ONE^2 / 4.
    assert(0 <= u * (one - u) && u * (one - u) <= 274877906944) by (nonlinear_arith)
        requires
            0 <= u <= one,
            one == 1048576,
    ;
    assert(w == (u * (one - u)) / one);
    lemma_div_is_ordered(0, u * (one - u), one);
    vstd::arithmetic::div_mod::lemma_div_basics(one);
    lemma_div_is_ordered(u * (one - u), 274877906944, one);
    assert((274877906944int) / one == 262144) by {
        lemma_div_exact(262144, one);
        assert(262144int * one == 274877906944);
    }
    assert(0 <= w <= 262144);
    let num = 16 * w * one;
    let den = 5 * one - 4 * w;
    assert(4 * one <= den <= 5 * one);
    assert(0 <= num && num <= 4398046511104) by (nonlinear_arith)
        requires
            0 <= w <= 262144,
            num == 16 * w * one,
            one == 1048576,
    ;
    lemma_div_pos_is_pos(num, den);
    lemma_div_is_ordered_by_denominator(num, 4 * one, den);
    lemma_div_is_ordered(num, 4398046511104, 4 * one);
    assert((4398046511104int) / (4 * one) == one) by {
        lemma_div_exact(one, 4 * one);
        assert(one * (4 * one) == 4398046511104) by (nonlinear_arith)
            requires
                one == 1048576,
        ;
    }
}

/// The Q20 sine of a phase expressed in turns.
pub fn sin_turn(p: i64) -> (r: i64)
    requires
        0 <= p < FP_ONE,
    ensures
        r as int == sin_turn_sp(p as int),
        -FP_ONE <= r <= FP_ONE,
        p < FP_HALF ==> r >= 0,
{
    if p < FP_HALF {
        sin_half(2 * p)
    } else {
        let s = sin_half(2 * (p - FP_HALF));
        -s
    }
}

/// The Q20 cosine of a phase expressed in turns.
pub fn cos_turn(p: i64) -> (r: i64)
    requires
        0 <= p < FP_ONE,
    ensures
        r as int == cos_turn_sp(p as int),
        -FP_ONE <= r <= FP_ONE,
{
    let shifted = if p + FP_QUARTER >= FP_ONE {
        p + FP_QUARTER - FP_ONE
    } else {
        p + FP_QUARTER
    };
    proof {
        let one = FP_ONE as int;
        let s = p as int + FP_QUARTER as int;
        if s >= one {
            assert(s % one == (s - one) % one) by {
                vstd::arithmetic::div_mod::lemma_mod_multiples_vanish(1, s - one, one);
            }
            vstd::arithmetic::div_mod::lemma_small_mod((s - one) as nat, one as nat);
        } else {
            vstd::arithmetic::div_mod::lemma_small_mod(s as nat, one as nat);
        }
    }
    sin_turn(shifted)
}

fn sin_half(u: i64) -> (r: i64)
    requires
        0 <= u <= FP_ONE,
    ensures
        r as int == sin_half_sp(u as int),
        0 <= r <= FP_ONE,
{
    proof {
        lemma_sin_half_range(u as int);
        lemma_mul_fp_bound(u as int, FP_ONE as int - u as int, FP_ONE as int, FP_ONE as int);
    }
    let w = mul_fp(u, FP_ONE - u);
    proof {
        let one = FP_ONE as int;
        assert(0 <= u as int * (one - u as int)) by (nonlinear_arith)
            requires
                0 <= u as int <= one,
        ;
        lemma_div_is_ordered(0, u as int * (one - u as int), one);
    }
    div_fp(16 * w * FP_ONE, 5 * FP_ONE - 4 * w)
}

/// 2^k as an i64, for exponents small enough to fit.
pub fn pow2_i64(k: u32) -> (r: i64)
    requires
        k <= 40,
    ensures
        r as int == pow2(k as nat),
        1 <= r,
{
    let mut r: i64 = 1;
    let mut i: u32 = 0;
    proof {
        lemma2_to64();
    }
    while i < k
        invariant
            i <= k <= 40,
            r as int == pow2(i as nat),
            1 <= r,
        decreases k - i,
    {
        proof {
            lemma2_to64();
            vstd::arithmetic::power2::lemma2_to64_rest();
            if (i as nat) < 40 {
                lemma_pow2_strictly_increases(i as nat, 40);
            }
            assert(pow2((i + 1) as nat) == 2 * pow2(i as nat)) by {
                vstd::arithmetic::power2::lemma_pow2_adds(1, i as nat);
                lemma2_to64();
            }
        }
        r = r * 2;
        i = i + 1;
    }
    r
}

/// The cubic on the fractional part: exactly FP_ONE at f = 0.
pub open spec fn exp2_frac_sp(f: int) -> int {
    FP_ONE as int + mul_fp_sp(f, EXP2_C1 as int) + mul_fp_sp(
        mul_fp_sp(f, f),
        EXP2_C2 as int,
    ) + mul_fp_sp(mul_fp_sp(mul_fp_sp(f, f), f), EXP2_C3 as int)
}

/// 2^(x / FP_ONE) in Q20: split into integer octave and fractional cubic.
pub open spec fn exp2_sp(x: int) -> int {
    let n = x / (FP_ONE as int);
    let f = x - n * (FP_ONE as int);
    if n >= 0 {
        exp2_frac_sp(f) * pow2(n as nat)
    } else {
        div_trunc(exp2_frac_sp(f), pow2((-n) as nat) as int)
    }
}

proof fn lemma_exp2_frac_range(f: int)
    requires
        0 <= f < FP_ONE as int,
    ensures
        FP_ONE as int <= exp2_frac_sp(f) <= 2 * FP_ONE as int,
{
    let one = FP_ONE as int;
    lemma_mul_fp_bound(f, EXP2_C1 as int, one, EXP2_C1 as int);
    lemma_mul_fp_bound(f, f, one, one);
    lemma_mul_fp_bound(mul_fp_sp(f, f), EXP2_C2 as int, one, EXP2_C2 as int);
    lemma_mul_fp_bound(mul_fp_sp(f, f), f, one, one);
    lemma_mul_fp_bound(mul_fp_sp(mul_fp_sp(f, f), f), EXP2_C3 as int, one, EXP2_C3 as int);
    assert(0 <= f * EXP2_C1 as int) by (nonlinear_arith)
        requires
            0 <= f,
    ;
    lemma_div_is_ordered(0, f * EXP2_C1 as int, one);
    assert(0 <= f * f) by (nonlinear_arith);
    lemma_div_is_ordered(0, f * f, one);
    assert(0 <= mul_fp_sp(f, f) * EXP2_C2 as int) by (nonlinear_arith)
        requires
            0 <= mul_fp_sp(f, f),
    ;
    lemma_div_is_ordered(0, mul_fp_sp(f, f) * EXP2_C2 as int, one);
    assert(0 <= mul_fp_sp(f, f) * f) by (nonlinear_arith)
        requires
            0 <= mul_fp_sp(f, f),
            0 <= f,
    ;
    lemma_div_is_ordered(0, mul_fp_sp(f, f) * f, one);
    assert(0 <= mul_fp_sp(mul_fp_sp(f, f), f) * EXP2_C3 as int) by (nonlinear_arith)
        requires
            0 <= mul_fp_sp(mul_fp_sp(f, f), f),
    ;
    lemma_div_is_ordered(0, mul_fp_sp(mul_fp_sp(f, f), f) * EXP2_C3 as int, one);
}

/// Q20 base-2 exponential. Exact at zero: `exp2_fp(0) == FP_ONE`.
pub fn exp2_fp(x: i64) -> (r: i64)
    requires
        -30 * FP_ONE <= x <= 30 * FP_ONE,
    ensures
        r as int == exp2_sp(x as int),
        0 <= r <= 0x10_0000_0000_0000,
        x == 0 ==> r == FP_ONE,
        x <= 4 * FP_ONE ==> r <= 33554432,
{
    let one = FP_ONE;
    let n: i64 = div_fp(x + 30 * one, one) - 30;
    proof {
        vstd::arithmetic::div_mod::lemma_hoist_over_denominator(x as int, 30, one as nat);
        lemma_fundamental_div_mod(x as int, one as int);
        lemma_mod_bound(x as int, one as int);
        assert(-30 <= n as int <= 30);
        if x <= 4 * one {
            lemma_div_is_ordered(x as int, 4 * one as int, one as int);
            assert((4 * one as int) / (one as int) == 4) by {
                lemma_div_exact(4, one as int);
            }
            assert(n <= 4);
        }
    }
    let f: i64 = x - n * one;
    proof {
        assert(f as int == (x as int) % (one as int));
        assert(0 <= f < one);
        lemma_exp2_frac_range(f as int);
        lemma_mul_fp_bound(f as int, EXP2_C1 as int, one as int, EXP2_C1 as int);
        lemma_mul_fp_bound(f as int, f as int, one as int, one as int);
        lemma_mul_fp_bound(mul_fp_sp(f as int, f as int), EXP2_C2 as int, one as int,
            EXP2_C2 as int);
        lemma_mul_fp_bound(mul_fp_sp(f as int, f as int), f as int, one as int, one as int);
        lemma_mul_fp_bound(mul_fp_sp(mul_fp_sp(f as int, f as int), f as int), EXP2_C3 as int,
            one as int, EXP2_C3 as int);
    }
    let f2 = mul_fp(f, f);
    let f3 = mul_fp(f2, f);
    let p = one + mul_fp(f, EXP2_C1) + mul_fp(f2, EXP2_C2) + mul_fp(f3, EXP2_C3);
    proof {
        assert(p as int == exp2_frac_sp(f as int));
        if x == 0 {
            vstd::arithmetic::div_mod::lemma_div_basics(one as int);
            assert(n == 0 && f == 0);
            assert(0 * EXP2_C1 as int == 0) by (nonlinear_arith);
            assert((0int) * 0 == 0) by (nonlinear_arith);
            assert(0 * EXP2_C2 as int == 0) by (nonlinear_arith);
            assert(0 * EXP2_C3 as int == 0) by (nonlinear_arith);
            assert(div_trunc(0, one as int) == 0);
            assert(mul_fp_sp(0, EXP2_C1 as int) == 0);
            assert(mul_fp_sp(0, 0) == 0);
            assert(mul_fp_sp(0, EXP2_C2 as int) == 0);
            assert(mul_fp_sp(0, EXP2_C3 as int) == 0);
        }
    }
    if n >= 0 {
        proof {
            lemma2_to64();
            if (n as nat) < 30 {
                lemma_pow2_strictly_increases(n as nat, 30);
            }
            assert(p as int * pow2(n as nat) <= 2 * one as int * pow2(30)) by (nonlinear_arith)
                requires
                    0 <= p as int <= 2 * one as int,
                    0 < pow2(n as nat) <= pow2(30),
            ;
            if n <= 4 {
                if (n as nat) < 4 {
                    lemma_pow2_strictly_increases(n as nat, 4);
                }
                assert(p as int * pow2(n as nat) <= 33554432) by (nonlinear_arith)
                    requires
                        0 <= p as int <= 2 * 1048576,
                        0 < pow2(n as nat) <= 16,
                ;
            }
            assert(0 <= p as int * pow2(n as nat)) by (nonlinear_arith)
                requires
                    0 <= p as int,
                    0 < pow2(n as nat),
            ;
            if n == 0 {
                assert(p as int * pow2(0) == p as int) by (nonlinear_arith)
                    requires
                        pow2(0) == 1,
                ;
            }
        }
        let m = pow2_i64(n as u32);
        p * m
    } else {
        let m = pow2_i64((-n) as u32);
        proof {
            lemma_pow2_pos((-(n as int)) as nat);
        }
        div_fp(p, m)
    }
}

/// Integer square root: the greatest `r` with `r * r <= x`.
pub fn isqrt_u64(x: u64) -> (r: u64)
    requires
        x < 0x1000_0000_0000_0000,
    ensures
        r as int * r as int <= x as int,
        ((r as int + 1) * (r as int + 1)) > x as int,
        r < 0x4000_0000,
{
    let mut lo: u64 = 0;
    let mut hi: u64 = 0x3FFF_FFFF;
    proof {
        assert(((0x3FFF_FFFFu64 as int + 1) * (0x3FFF_FFFFu64 as int + 1)) > x as int)
            by (nonlinear_arith)
            requires
                x < 0x1000_0000_0000_0000,
        ;
    }
    while lo < hi
        invariant
            lo <= hi <= 0x3FFF_FFFF,
            lo as int * lo as int <= x as int,
            ((hi as int + 1) * (hi as int + 1)) > x as int,
        decreases hi - lo,
    {
        let mid = lo + (hi - lo + 1) / 2;
        proof {
            assert(lo < mid <= hi);
            assert(mid as int * mid as int <= 0x3FFF_FFFFi64 as int * 0x3FFF_FFFFi64 as int)
                by (nonlinear_arith)
                requires
                    0 <= mid as int <= 0x3FFF_FFFF,
            ;
        }
        if mid * mid <= x {
            lo = mid;
        } else {
            hi = mid - 1;
            proof {
                assert(((hi as int + 1) * (hi as int + 1)) > x as int);
            }
        }
    }
    lo
}

/// The integer square root: the unique `r >= 0` with `r^2 <= x < (r+1)^2`.
pub open spec fn sqrt_floor_sp(x: int) -> int {
    choose|r: int| 0 <= r && #[trigger] (r * r) <= x && ((r + 1) * (r + 1)) > x
}

/// The integer-square-root bracket pins its value down.
pub proof fn lemma_sqrt_floor_unique(x: int, r: int)
    requires
        0 <= r,
        r * r <= x,
        ((r + 1) * (r + 1)) > x,
    ensures
        sqrt_floor_sp(x) == r,
{
    let c = sqrt_floor_sp(x);
    assert(0 <= c && c * c <= x && ((c + 1) * (c + 1)) > x) by {
        assert(exists|q: int| 0 <= q && #[trigger] (q * q) <= x && ((q + 1) * (q + 1)) > x) by {
            assert(0 <= r && r * r <= x && ((r + 1) * (r + 1)) > x);
        }
    }
    assert(c == r) by (nonlinear_arith)
        requires
            0 <= c,
            0 <= r,
            c * c <= x,
            r * r <= x,
            ((c + 1) * (c + 1)) > x,
            ((r + 1) * (r + 1)) > x,
    ;
}

/// Q20 square root of a nonnegative Q20 value: `r` is the greatest value
/// with `r^2 <= a` at Q20 scale. Exact at one: `sqrt_fp(FP_ONE) == FP_ONE`.
pub fn sqrt_fp(a: i64) -> (r: i64)
    requires
        0 <= a <= 16 * FP_ONE,
    ensures
        r as int == sqrt_floor_sp(a as int * FP_ONE as int),
        r as int * r as int <= a as int * FP_ONE as int,
        ((r as int + 1) * (r as int + 1)) > a as int * FP_ONE as int,
        0 <= r <= 4 * FP_ONE,
        a == FP_ONE ==> r == FP_ONE,
{
    proof {
        assert(a as int * FP_ONE as int <= 17592186044416) by (nonlinear_arith)
            requires
                0 <= a as int <= 16 * 1048576,
                FP_ONE == 1048576,
        ;
    }
    let scaled: u64 = (a as u64) * (FP_ONE as u64);
    let r = isqrt_u64(scaled);
    proof {
        let one = FP_ONE as int;
        let ri = r as int;
        lemma_sqrt_floor_unique(a as int * one, ri);
        assert(ri * ri <= 17592186044416);
        assert(ri <= 4 * one) by (nonlinear_arith)
            requires
                ri * ri <= 17592186044416,
                0 <= ri,
                one == 1048576,
        ;
        if a == FP_ONE {
            assert(ri * ri <= one * one && one * one < (ri + 1) * (ri + 1));
            assert(ri == one) by (nonlinear_arith)
                requires
                    ri * ri <= one * one,
                    one * one < (ri + 1) * (ri + 1),
                    0 <= ri,
                    0 < one,
            ;
        }
    }
    r as i64
}

/// The equal-tempered semitone ratio 2^(k/12) in Q20, for k in [0, 12).
pub open spec fn semitone_sp(k: int) -> int {
    if k == 0 {
        1048576
    } else if k == 1 {
        1110928
    } else if k == 2 {
        1176987
    } else if k == 3 {
        1246974
    } else if k == 4 {
        1321123
    } else if k == 5 {
        1399681
    } else if k == 6 {
        1482910
    } else if k == 7 {
        1571089
    } else if k == 8 {
        1664511
    } else if k == 9 {
        1763488
    } else if k == 10 {
        1868350
    } else {
        1979448
    }
}

/// The frequency of a MIDI note in Q20 Hz: 440 * 2^((note - 69) / 12),
/// via the semitone table and exact octave shifts. Note 69 is exactly
/// 440 Hz.
pub open spec fn midi_freq_sp(note: int) -> int {
    let d = note - 69;
    let oct = d / 12;
    let k = d % 12;
    let base = 440 * semitone_sp(k);
    if oct >= 0 {
        base * pow2(oct as nat)
    } else {
        div_trunc(base, pow2((-oct) as nat) as int)
    }
}

/// The frequency of a MIDI note in Q20 Hz.
pub fn midi_freq_fp(note: u8) -> (r: i64)
    requires
        note < 128,
    ensures
        r as int == midi_freq_sp(note as int),
        1 <= r <= 0x20_0000_0000,
        note == 69 ==> r == 440 * FP_ONE,
{
    let d: i32 = note as i32 - 69;
    let shifted: u32 = (d + 72) as u32;
    let oct: i32 = (shifted / 12) as i32 - 6;
    let k: u32 = shifted % 12;
    proof {
        let di = d as int;
        vstd::arithmetic::div_mod::lemma_hoist_over_denominator(di, 6, 12);
        assert(di + 72 == di + 6 * 12);
        vstd::arithmetic::div_mod::lemma_mod_multiples_vanish(6, di, 12);
        assert(12 * 6 + di == di + 72);
        lemma_mod_bound(di, 12);
        assert(oct as int == di / 12);
        assert(k as int == di % 12);
        assert(-6 <= oct as int <= 4);
    }
    let s: i64 = match k {
        0 => 1048576,
        1 => 1110928,
        2 => 1176987,
        3 => 1246974,
        4 => 1321123,
        5 => 1399681,
        6 => 1482910,
        7 => 1571089,
        8 => 1664511,
        9 => 1763488,
        10 => 1868350,
        _ => 1979448,
    };
    proof {
        assert(s as int == semitone_sp(k as int));
        assert(1048576 <= s <= 1979448);
    }
    let base: i64 = 440 * s;
    if oct >= 0 {
        let m = pow2_i64(oct as u32);
        proof {
            lemma2_to64();
            if (oct as nat) < 4 {
                lemma_pow2_strictly_increases(oct as nat, 4);
            } else {
                assert(oct == 4);
            }
            assert(base as int * pow2(oct as nat) <= 870957120 * 16) by (nonlinear_arith)
                requires
                    0 < base as int <= 870957120,
                    0 < pow2(oct as nat) <= 16,
            ;
            assert(base as int * pow2(oct as nat) >= 1) by (nonlinear_arith)
                requires
                    1 <= base as int,
                    1 <= pow2(oct as nat),
            ;
            if note == 69 {
                vstd::arithmetic::div_mod::lemma_div_basics(12);
                vstd::arithmetic::div_mod::lemma_small_mod(0nat, 12nat);
                assert(oct == 0 && k == 0);
                assert(base as int * pow2(0) == base as int) by (nonlinear_arith)
                    requires
                        pow2(0) == 1,
                ;
            }
        }
        base * m
    } else {
        let m = pow2_i64((-oct) as u32);
        proof {
            lemma2_to64();
            if ((-oct) as nat) < 6 {
                lemma_pow2_strictly_increases((-oct) as nat, 6);
            } else {
                assert(-oct == 6);
            }
            assert(pow2((-(oct as int)) as nat) <= 64);
            lemma_div_is_ordered(64, base as int, m as int);
            lemma_div_is_ordered_by_denominator(64, m as int, 64);
            vstd::arithmetic::div_mod::lemma_div_basics(m as int);
            assert((64int) / 64 == 1) by {
                lemma_div_exact(1, 64);
            }
            assert((64int) / (m as int) >= 1);
        }
        div_fp(base, m)
    }
}

/// Saturating Q20 hyperbolic tangent: x(27 + x^2) / (27 + 9x^2), clamped
/// to [-1, 1].
pub open spec fn tanh_sp(x: int) -> int {
    let one = FP_ONE as int;
    let x2 = mul_fp_sp(x, x);
    let num = mul_fp_sp(x, 27 * one + x2);
    let den = 27 * one + 9 * x2;
    clamp_sp(div_trunc(num * one, den), -one, one)
}

/// Saturating Q20 hyperbolic tangent.
pub fn tanh_fp(x: i64) -> (r: i64)
    requires
        -4 * FP_ONE <= x <= 4 * FP_ONE,
    ensures
        r as int == tanh_sp(x as int),
        -FP_ONE <= r <= FP_ONE,
{
    let one = FP_ONE;
    proof {
        let onei = one as int;
        lemma_mul_fp_bound(x as int, x as int, 4 * onei, 4 * onei);
        assert((4 * onei) * (4 * onei) == 17592186044416) by (nonlinear_arith)
            requires
                onei == 1048576,
        ;
    }
    let x2 = mul_fp(x, x);
    proof {
        let onei = one as int;
        assert(0 <= x as int * x as int) by (nonlinear_arith);
        lemma_div_is_ordered(0, x as int * x as int, onei);
        vstd::arithmetic::div_mod::lemma_div_basics(onei);
        assert((17592186044416int) / onei == 16777216) by {
            lemma_div_exact(16777216, onei);
            assert(16777216int * onei == 17592186044416);
        }
        assert(0 <= x2 as int <= 16 * onei);
        lemma_mul_fp_bound(x as int, 27 * onei + x2 as int, 4 * onei, 43 * onei);
        assert((4 * onei) * (43 * onei) == 189115999977472) by (nonlinear_arith)
            requires
                onei == 1048576,
        ;
        assert((189115999977472int) / onei == 180355072) by {
            lemma_div_exact(180355072, onei);
            assert(180355072int * onei == 189115999977472);
        }
        let numi = mul_fp_sp(x as int, 27 * onei + x2 as int);
        assert(-180355072 <= numi <= 180355072);
        assert(-189115999977472 <= numi * onei <= 189115999977472) by (nonlinear_arith)
            requires
                -180355072 <= numi <= 180355072,
                onei == 1048576,
        ;
    }
    let num = mul_fp(x, 27 * one + x2);
    let den = 27 * one + 9 * x2;
    let q = div_fp(num * one, den);
    clamp_fp(q, -one, one)
}

} // verus!
