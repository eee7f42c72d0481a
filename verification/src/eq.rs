//! The three-band equalizer: a cascade of three biquad sections (low
//! shelf, mid peak, high shelf) in transposed direct form II.
//!
//! Coefficients are recomputed from the parameters without touching the
//! two feedback memory cells, so a parameter change never resets filter
//! history. At a 0 dB gain setting the section's numerator and denominator
//! coincide exactly, and the section is proven to be the identity from
//! cleared state (`lemma_unity_biquad_identity`).

use vstd::arithmetic::div_mod::{lemma_div_is_ordered, lemma_div_pos_is_pos};
use vstd::prelude::*;

use crate::fixed::{
    clamp_fp, clamp_sp, div_fp, div_trunc, lemma_div_exact, lemma_div_self_scaled,
    lemma_mul_fp_bound, lemma_mul_fp_one, mul_fp, mul_fp_sp, FP_HALF, FP_ONE,
};
use crate::params::SynthParams;
use crate::trig::{cos_turn, cos_turn_sp, exp2_fp, sin_turn, sin_turn_sp, sqrt_floor_sp, sqrt_fp, SQRT2_FP};
use crate::voice::SR_MAX;

verus! {

/// Largest magnitude a normalized biquad coefficient can take (256.0).
pub const COEFF_MAX: i64 = 268435456;

/// Largest magnitude the equalizer accepts as input per sample (1024.0).
pub const MIX_MAX: i64 = 1073741824;

/// Saturation bound of a section's output (4096.0).
pub const EQ_Y_MAX: i64 = 4294967296;

/// Saturation bound of a section's feedback memory cells (16384.0).
pub const EQ_Z_MAX: i64 = 17179869184;

/// Smallest normalizer: below this the raw coefficients are kept as if
/// the normalizer were one, avoiding a near-singular division (0.25).
pub const A0_MIN: i64 = 262144;

/// One biquad section's coefficient set, already normalized by a0.
#[derive(Clone, Copy, PartialEq, Eq, Structural, Debug)]
pub struct BiquadCoeffs {
    pub b0: i64,
    pub b1: i64,
    pub b2: i64,
    pub a1: i64,
    pub a2: i64,
}

/// All coefficients within the proven magnitude bound.
pub open spec fn coeffs_wf(c: BiquadCoeffs) -> bool {
    &&& -COEFF_MAX <= c.b0 <= COEFF_MAX
    &&& -COEFF_MAX <= c.b1 <= COEFF_MAX
    &&& -COEFF_MAX <= c.b2 <= COEFF_MAX
    &&& -COEFF_MAX <= c.a1 <= COEFF_MAX
    &&& -COEFF_MAX <= c.a2 <= COEFF_MAX
}

/// A coefficient set whose numerator equals its denominator: such a
/// section passes its input through unchanged from cleared state.
pub open spec fn unity_coeffs_sp(c: BiquadCoeffs) -> bool {
    &&& c.b0 == FP_ONE
    &&& c.b1 == c.a1
    &&& c.b2 == c.a2
}

/// Normalization of raw cookbook coefficients by a0 (see `from_raw`).
pub open spec fn from_raw_sp(b0: int, b1: int, b2: int, a0: int, a1: int, a2: int) -> BiquadCoeffs {
    if a0 < A0_MIN as int {
        BiquadCoeffs { b0: b0 as i64, b1: b1 as i64, b2: b2 as i64, a1: a1 as i64, a2: a2 as i64 }
    } else {
        BiquadCoeffs {
            b0: div_trunc(b0 * FP_ONE as int, a0) as i64,
            b1: div_trunc(b1 * FP_ONE as int, a0) as i64,
            b2: div_trunc(b2 * FP_ONE as int, a0) as i64,
            a1: div_trunc(a1 * FP_ONE as int, a0) as i64,
            a2: div_trunc(a2 * FP_ONE as int, a0) as i64,
        }
    }
}

impl BiquadCoeffs {
    /// The identity section: passes input through, no feedback.
    pub fn identity() -> (r: BiquadCoeffs)
        ensures
            r == (BiquadCoeffs { b0: FP_ONE, b1: 0, b2: 0, a1: 0, a2: 0 }),
            coeffs_wf(r),
            unity_coeffs_sp(r),
    {
        BiquadCoeffs { b0: FP_ONE, b1: 0, b2: 0, a1: 0, a2: 0 }
    }

    /// Normalize raw cookbook coefficients by dividing through by a0; a
    /// near-zero a0 is treated as one, as the cookbook prescribes.
    pub fn from_raw(b0: i64, b1: i64, b2: i64, a0: i64, a1: i64, a2: i64) -> (r: BiquadCoeffs)
        requires
            -67108864 <= b0 <= 67108864,
            -67108864 <= b1 <= 67108864,
            -67108864 <= b2 <= 67108864,
            -67108864 <= a0 <= 67108864,
            -67108864 <= a1 <= 67108864,
            -67108864 <= a2 <= 67108864,
        ensures
            r == from_raw_sp(b0 as int, b1 as int, b2 as int, a0 as int, a1 as int, a2 as int),
            coeffs_wf(r),
            (b0 == a0 && b1 == a1 && b2 == a2 && a0 >= A0_MIN) ==> unity_coeffs_sp(r),
    {
        if a0 < A0_MIN {
            BiquadCoeffs { b0, b1, b2, a1, a2 }
        } else {
            proof {
                lemma_norm_bound(b0 as int, a0 as int);
                lemma_norm_bound(b1 as int, a0 as int);
                lemma_norm_bound(b2 as int, a0 as int);
                lemma_norm_bound(a1 as int, a0 as int);
                lemma_norm_bound(a2 as int, a0 as int);
                if b0 == a0 {
                    lemma_div_self_scaled(a0 as int);
                }
            }
            BiquadCoeffs {
                b0: div_fp_scaled(b0, a0),
                b1: div_fp_scaled(b1, a0),
                b2: div_fp_scaled(b2, a0),
                a1: div_fp_scaled(a1, a0),
                a2: div_fp_scaled(a2, a0),
            }
        }
    }
}

/// `v / a0` at Q20 scale, for the normalization step.
fn div_fp_scaled(v: i64, a0: i64) -> (r: i64)
    requires
        -67108864 <= v <= 67108864,
        A0_MIN <= a0 <= 67108864,
    ensures
        r as int == div_trunc(v as int * FP_ONE as int, a0 as int),
        -COEFF_MAX <= r <= COEFF_MAX,
{
    proof {
        lemma_norm_bound(v as int, a0 as int);
        assert(-70368744177664 <= v as int * FP_ONE as int <= 70368744177664) by (nonlinear_arith)
            requires
                -67108864 <= v as int <= 67108864,
                FP_ONE == 1048576,
        ;
    }
    div_fp(v * FP_ONE, a0)
}

/// Dividing a bounded numerator by at least `A0_MIN` keeps the result
/// within `COEFF_MAX`.
proof fn lemma_norm_bound(v: int, a0: int)
    requires
        -67108864 <= v <= 67108864,
        A0_MIN as int <= a0,
    ensures
        -COEFF_MAX as int <= div_trunc(v * FP_ONE as int, a0) <= COEFF_MAX as int,
{
    let one = FP_ONE as int;
    assert(-70368744177664 <= v * one <= 70368744177664) by (nonlinear_arith)
        requires
            -67108864 <= v <= 67108864,
            one == 1048576,
    ;
    crate::fixed::lemma_div_trunc_bound(v * one, A0_MIN as int, 70368744177664);
    assert((70368744177664int) / (A0_MIN as int) == 268435456) by {
        lemma_div_exact(268435456, A0_MIN as int);
        assert(268435456int * 262144 == 70368744177664);
    }
    if v * one >= 0 {
        lemma_div_is_ordered_by_denominator_wrap(v * one, A0_MIN as int, a0);
    } else {
        lemma_div_is_ordered_by_denominator_wrap(-(v * one), A0_MIN as int, a0);
    }
}

proof fn lemma_div_is_ordered_by_denominator_wrap(x: int, d1: int, d2: int)
    requires
        0 <= x,
        1 <= d1 <= d2,
    ensures
        x / d2 <= x / d1,
{
    vstd::arithmetic::div_mod::lemma_div_is_ordered_by_denominator(x, d1, d2);
}

/// One biquad section: its coefficients and two feedback memory cells.
#[derive(Clone, Copy, PartialEq, Eq, Structural, Debug)]
pub struct BiquadState {
    pub coeffs: BiquadCoeffs,
    pub z1: i64,
    pub z2: i64,
}

/// A well-formed section: bounded coefficients and memory cells.
pub open spec fn biquad_wf(s: BiquadState) -> bool {
    &&& coeffs_wf(s.coeffs)
    &&& -EQ_Z_MAX <= s.z1 <= EQ_Z_MAX
    &&& -EQ_Z_MAX <= s.z2 <= EQ_Z_MAX
}

/// One transposed direct-form-II step: output and both new memory cells,
/// each saturated to its proven range.
pub open spec fn biquad_step_sp(c: BiquadCoeffs, z1: int, z2: int, x: int) -> (int, int, int) {
    let y = clamp_sp(mul_fp_sp(c.b0 as int, x) + z1, -(EQ_Y_MAX as int), EQ_Y_MAX as int);
    let nz1 = clamp_sp(
        mul_fp_sp(c.b1 as int, x) - mul_fp_sp(c.a1 as int, y) + z2,
        -(EQ_Z_MAX as int),
        EQ_Z_MAX as int,
    );
    let nz2 = clamp_sp(
        mul_fp_sp(c.b2 as int, x) - mul_fp_sp(c.a2 as int, y),
        -(EQ_Z_MAX as int),
        EQ_Z_MAX as int,
    );
    (y, nz1, nz2)
}

/// A section with numerator equal to denominator and cleared memory is
/// the identity: the input passes through and the memory stays cleared.
pub proof fn lemma_unity_biquad_identity(c: BiquadCoeffs, x: int)
    requires
        unity_coeffs_sp(c),
        -MIX_MAX as int <= x <= MIX_MAX as int,
    ensures
        biquad_step_sp(c, 0, 0, x) == (x, 0int, 0int),
{
    lemma_mul_fp_one(x);
    assert(mul_fp_sp(c.b0 as int, x) == x);
    assert(clamp_sp(x, -(EQ_Y_MAX as int), EQ_Y_MAX as int) == x);
    assert(mul_fp_sp(c.b1 as int, x) - mul_fp_sp(c.a1 as int, x) == 0);
    assert(mul_fp_sp(c.b2 as int, x) - mul_fp_sp(c.a2 as int, x) == 0);
    assert(clamp_sp(0, -(EQ_Z_MAX as int), EQ_Z_MAX as int) == 0);
}

impl BiquadState {
    /// A fresh identity section with cleared memory.
    pub fn new() -> (r: BiquadState)
        ensures
            r.coeffs == (BiquadCoeffs { b0: FP_ONE, b1: 0, b2: 0, a1: 0, a2: 0 }),
            r.z1 == 0,
            r.z2 == 0,
            biquad_wf(r),
            unity_coeffs_sp(r.coeffs),
    {
        BiquadState { coeffs: BiquadCoeffs::identity(), z1: 0, z2: 0 }
    }

    /// Swap in a new coefficient set; the memory cells persist, so a
    /// parameter change does not click.
    pub fn set_coeffs(&mut self, coeffs: BiquadCoeffs)
        ensures
            final(self).coeffs == coeffs,
            final(self).z1 == old(self).z1,
            final(self).z2 == old(self).z2,
    {
        self.coeffs = coeffs;
    }

    /// Run one sample through the section (see `biquad_step_sp`).
    pub fn process(&mut self, input: i64) -> (r: i64)
        requires
            biquad_wf(*old(self)),
            -MIX_MAX <= input <= MIX_MAX,
        ensures
            (r as int, final(self).z1 as int, final(self).z2 as int) == biquad_step_sp(
                old(self).coeffs,
                old(self).z1 as int,
                old(self).z2 as int,
                input as int,
            ),
            final(self).coeffs == old(self).coeffs,
            biquad_wf(*final(self)),
            -EQ_Y_MAX <= r <= EQ_Y_MAX,
    {
        proof {
            lemma_mul_fp_bound(
                self.coeffs.b0 as int,
                input as int,
                COEFF_MAX as int,
                MIX_MAX as int,
            );
            lemma_coeff_mix_product();
        }
        let y = clamp_fp(mul_fp(self.coeffs.b0, input) + self.z1, -EQ_Y_MAX, EQ_Y_MAX);
        proof {
            lemma_mul_fp_bound(
                self.coeffs.b1 as int,
                input as int,
                COEFF_MAX as int,
                MIX_MAX as int,
            );
            lemma_mul_fp_bound(self.coeffs.a1 as int, y as int, COEFF_MAX as int, EQ_Y_MAX as int);
            lemma_mul_fp_bound(
                self.coeffs.b2 as int,
                input as int,
                COEFF_MAX as int,
                MIX_MAX as int,
            );
            lemma_mul_fp_bound(self.coeffs.a2 as int, y as int, COEFF_MAX as int, EQ_Y_MAX as int);
            lemma_coeff_y_product();
        }
        let nz1 = clamp_fp(
            mul_fp(self.coeffs.b1, input) - mul_fp(self.coeffs.a1, y) + self.z2,
            -EQ_Z_MAX,
            EQ_Z_MAX,
        );
        let nz2 = clamp_fp(mul_fp(self.coeffs.b2, input) - mul_fp(self.coeffs.a2, y), -EQ_Z_MAX,
            EQ_Z_MAX);
        self.z1 = nz1;
        self.z2 = nz2;
        y
    }
}

/// Linear amplitude for a gain in Q20 decibels: 10^(db / 40), clamped to
/// [0.25, 4] (about -24 dB .. +24 dB of shelving boost). 87082 is
/// log2(10) / 40 in Q20; a 0 dB setting maps to exactly one.
pub open spec fn gain_amp_sp(gain_db: int) -> int {
    let x = mul_fp_sp(clamp_sp(gain_db, -25165824, 25165824), 87082);
    clamp_sp(
        crate::trig::exp2_sp(clamp_sp(x, -(8 * FP_ONE as int), 8 * FP_ONE as int)),
        A0_MIN as int,
        4 * FP_ONE as int,
    )
}

/// Linear amplitude for a gain in Q20 decibels (see `gain_amp_sp`).
fn gain_amp(gain_db: i64) -> (r: i64)
    ensures
        r as int == gain_amp_sp(gain_db as int),
        A0_MIN <= r <= 4 * FP_ONE,
        gain_db == 0 ==> r == FP_ONE,
{
    let gc = clamp_fp(gain_db, -25165824, 25165824);
    proof {
        lemma_mul_fp_bound(gc as int, 87082, 25165824, 87082);
        if gain_db == 0 {
            assert((0int) * 87082 == 0) by (nonlinear_arith);
            vstd::arithmetic::div_mod::lemma_div_basics(FP_ONE as int);
            assert(mul_fp_sp(0, 87082) == div_trunc(0, FP_ONE as int));
            assert(div_trunc(0, FP_ONE as int) == 0);
        }
    }
    let x = mul_fp(gc, 87082);
    let xc = clamp_fp(x, -8 * FP_ONE, 8 * FP_ONE);
    let e = exp2_fp(xc);
    clamp_fp(e, A0_MIN, 4 * FP_ONE)
}

/// The corner/center frequency as a fraction of a turn per sample:
/// clamp to [10 Hz, 0.45 * sample_rate], divide by the rate, and never
/// reach the half-turn Nyquist limit.
pub open spec fn w_turn_sp(freq: int, sr: int) -> int {
    let f = clamp_sp(freq, 10485760, div_trunc(9 * sr * FP_ONE as int, 20));
    let w = div_trunc(f, sr);
    if w > 524287 {
        524287
    } else {
        w
    }
}

/// The frequency of a band as a fraction of a turn per sample.
fn w_turn(freq: i64, sr: u32) -> (r: i64)
    requires
        1 <= sr <= SR_MAX,
    ensures
        r as int == w_turn_sp(freq as int, sr as int),
        0 <= r <= 524287,
{
    proof {
        assert(0 <= 9 * sr as int * FP_ONE as int <= 9895604649984) by (nonlinear_arith)
            requires
                1 <= sr as int <= 1048576,
                FP_ONE == 1048576,
        ;
    }
    let hi = div_fp(9 * (sr as i64) * FP_ONE, 20);
    let f = clamp_fp(freq, 10485760, hi);
    let w = div_fp(f, sr as i64);
    if w > 524287 {
        524287
    } else {
        w
    }
}

/// The shelving coefficient set the cookbook formulas yield, in Q20.
pub open spec fn shelf_coeffs_sp(sr: int, freq: int, gain_db: int, high: bool) -> BiquadCoeffs {
    let a = gain_amp_sp(gain_db);
    let wt = w_turn_sp(freq, sr);
    let cw = cos_turn_sp(wt);
    let sw = sin_turn_sp(wt);
    let sqa = sqrt_floor_sp(a * FP_ONE as int);
    let alpha = mul_fp_sp(mul_fp_sp(sw, FP_HALF as int), SQRT2_FP as int);
    let mc = mul_fp_sp(a - FP_ONE as int, cw);
    let mc1 = mul_fp_sp(a + FP_ONE as int, cw);
    let ta = 2 * mul_fp_sp(sqa, alpha);
    if !high {
        from_raw_sp(
            mul_fp_sp(a, (a + FP_ONE as int) - mc + ta),
            2 * mul_fp_sp(a, (a - FP_ONE as int) - mc1),
            mul_fp_sp(a, (a + FP_ONE as int) - mc - ta),
            (a + FP_ONE as int) + mc + ta,
            -2 * ((a - FP_ONE as int) + mc1),
            (a + FP_ONE as int) + mc - ta,
        )
    } else {
        from_raw_sp(
            mul_fp_sp(a, (a + FP_ONE as int) + mc + ta),
            -2 * mul_fp_sp(a, (a - FP_ONE as int) + mc1),
            mul_fp_sp(a, (a + FP_ONE as int) + mc - ta),
            (a + FP_ONE as int) - mc + ta,
            2 * ((a - FP_ONE as int) - mc1),
            (a + FP_ONE as int) - mc - ta,
        )
    }
}

/// Shelving-filter coefficients (low shelf when `high` is false), from the
/// standard audio-EQ-cookbook formulas with a fixed sqrt(2)/2 slope term,
/// normalized by a0. A 0 dB gain yields a unity section.
fn shelf_coeffs(sample_rate: u32, freq: i64, gain_db: i64, high: bool) -> (r: BiquadCoeffs)
    requires
        1 <= sample_rate <= SR_MAX,
    ensures
        r == shelf_coeffs_sp(sample_rate as int, freq as int, gain_db as int, high),
        coeffs_wf(r),
        gain_db == 0 ==> unity_coeffs_sp(r),
{
    let a = gain_amp(gain_db);
    let wt = w_turn(freq, sample_rate);
    let cw = cos_turn(wt);
    let sw = sin_turn(wt);
    let sqa = sqrt_fp(a);
    proof {
        assert(0 <= sqa as int * sqa as int) by (nonlinear_arith);
        assert(sqa as int <= 2097152) by (nonlinear_arith)
            requires
                sqa as int * sqa as int <= a as int * FP_ONE as int,
                a as int <= 4 * 1048576,
                FP_ONE == 1048576,
                0 <= sqa as int,
        ;
        lemma_mul_fp_bound(sw as int, FP_HALF as int, FP_ONE as int, FP_HALF as int);
        lemma_div_exact(FP_HALF as int, FP_ONE as int);
        assert((FP_ONE as int) * (FP_HALF as int) == (FP_HALF as int) * (FP_ONE as int))
            by (nonlinear_arith);
        assert(0 <= sw as int * FP_HALF as int) by (nonlinear_arith)
            requires
                0 <= sw as int,
                FP_HALF == 524288,
        ;
        lemma_div_pos_is_pos(sw as int * FP_HALF as int, FP_ONE as int);
    }
    let sh = mul_fp(sw, FP_HALF);
    proof {
        lemma_mul_fp_bound(sh as int, SQRT2_FP as int, FP_HALF as int, SQRT2_FP as int);
        assert((FP_HALF as int) * (SQRT2_FP as int) == 777471918080) by (nonlinear_arith)
            requires
                FP_HALF == 524288,
                SQRT2_FP == 1482910,
        ;
        assert((777471918080int) / (FP_ONE as int) == 741455) by {
            lemma_div_exact(741455, FP_ONE as int);
            assert(741455int * (FP_ONE as int) == 777471918080) by (nonlinear_arith);
        }
    }
    let alpha = mul_fp(sh, SQRT2_FP);
    proof {
        assert(0 <= sh as int * SQRT2_FP as int) by (nonlinear_arith)
            requires
                0 <= sh as int,
                SQRT2_FP == 1482910,
        ;
        lemma_div_pos_is_pos(sh as int * SQRT2_FP as int, FP_ONE as int);
        lemma_mul_fp_bound(a as int - FP_ONE as int, cw as int, 3 * FP_ONE as int, FP_ONE as int);
        lemma_mul_fp_bound(a as int + FP_ONE as int, cw as int, 5 * FP_ONE as int, FP_ONE as int);
        lemma_mul_fp_bound(sqa as int, alpha as int, 2097152, 741455);
        lemma_shelf_products();
        if gain_db == 0 {
            assert((0int) * (cw as int) == 0) by (nonlinear_arith);
            vstd::arithmetic::div_mod::lemma_div_basics(FP_ONE as int);
            assert(mul_fp_sp(0, cw as int) == 0);
        }
    }
    let mc = mul_fp(a - FP_ONE, cw);
    let mc1 = mul_fp(a + FP_ONE, cw);
    let sa = mul_fp(sqa, alpha);
    let ta = 2 * sa;
    proof {
        assert(0 <= sqa as int * alpha as int) by (nonlinear_arith)
            requires
                0 <= sqa as int,
                0 <= alpha as int,
        ;
        lemma_div_pos_is_pos(sqa as int * alpha as int, FP_ONE as int);
        assert(0 <= sa as int);
        if gain_db == 0 {
            lemma_mul_fp_one(alpha as int);
            lemma_mul_fp_one((2 * FP_ONE as int) + ta as int);
            lemma_mul_fp_one((2 * FP_ONE as int) - ta as int);
            lemma_mul_fp_one(0 - mc1 as int);
        }
        lemma_mul_fp_bound(
            a as int,
            (a as int + FP_ONE as int) - mc as int + ta as int,
            4 * FP_ONE as int,
            11 * FP_ONE as int,
        );
        lemma_mul_fp_bound(
            a as int,
            (a as int + FP_ONE as int) - mc as int - ta as int,
            4 * FP_ONE as int,
            11 * FP_ONE as int,
        );
        lemma_mul_fp_bound(
            a as int,
            (a as int - FP_ONE as int) - mc1 as int,
            4 * FP_ONE as int,
            8 * FP_ONE as int,
        );
        lemma_mul_fp_bound(
            a as int,
            (a as int - FP_ONE as int) + mc1 as int,
            4 * FP_ONE as int,
            8 * FP_ONE as int,
        );
        lemma_mul_fp_bound(
            a as int,
            (a as int + FP_ONE as int) + mc as int + ta as int,
            4 * FP_ONE as int,
            11 * FP_ONE as int,
        );
        lemma_mul_fp_bound(
            a as int,
            (a as int + FP_ONE as int) + mc as int - ta as int,
            4 * FP_ONE as int,
            11 * FP_ONE as int,
        );
        lemma_shelf_inner_products();
    }
    if !high {
        let b0 = mul_fp(a, (a + FP_ONE) - mc + ta);
        let b1 = 2 * mul_fp(a, (a - FP_ONE) - mc1);
        let b2 = mul_fp(a, (a + FP_ONE) - mc - ta);
        let a0 = (a + FP_ONE) + mc + ta;
        let a1 = -2 * ((a - FP_ONE) + mc1);
        let a2 = (a + FP_ONE) + mc - ta;
        BiquadCoeffs::from_raw(b0, b1, b2, a0, a1, a2)
    } else {
        let b0 = mul_fp(a, (a + FP_ONE) + mc + ta);
        let b1 = -2 * mul_fp(a, (a - FP_ONE) + mc1);
        let b2 = mul_fp(a, (a + FP_ONE) + mc - ta);
        let a0 = (a + FP_ONE) - mc + ta;
        let a1 = 2 * ((a - FP_ONE) - mc1);
        let a2 = (a + FP_ONE) - mc - ta;
        BiquadCoeffs::from_raw(b0, b1, b2, a0, a1, a2)
    }
}

/// Product facts used to bound the shelf terms.
proof fn lemma_shelf_products()
    ensures
        (3 * FP_ONE as int) * (FP_ONE as int) / (FP_ONE as int) == 3 * FP_ONE as int,
        (5 * FP_ONE as int) * (FP_ONE as int) / (FP_ONE as int) == 5 * FP_ONE as int,
        (2097152int * 741455) / (FP_ONE as int) <= 1482910,
{
    lemma_div_exact(3 * FP_ONE as int, FP_ONE as int);
    lemma_div_exact(5 * FP_ONE as int, FP_ONE as int);
    assert(2097152int * 741455 == 1554943836160) by (nonlinear_arith);
    assert((1554943836160int) / (FP_ONE as int) == 1482910) by {
        lemma_div_exact(1482910, FP_ONE as int);
        assert(1482910int * (FP_ONE as int) == 1554943836160) by (nonlinear_arith);
    }
}

/// Product facts used to bound the shelf numerators.
proof fn lemma_shelf_inner_products()
    ensures
        ((4 * FP_ONE as int) * (11 * FP_ONE as int)) / (FP_ONE as int) == 44 * FP_ONE as int,
        ((4 * FP_ONE as int) * (8 * FP_ONE as int)) / (FP_ONE as int) == 32 * FP_ONE as int,
        (4 * FP_ONE as int) * (11 * FP_ONE as int) == 48378511622144,
        (4 * FP_ONE as int) * (8 * FP_ONE as int) == 35184372088832,
{
    assert((4 * FP_ONE as int) * (11 * FP_ONE as int) == 48378511622144) by (nonlinear_arith)
        requires
            FP_ONE == 1048576,
    ;
    assert((4 * FP_ONE as int) * (8 * FP_ONE as int) == 35184372088832) by (nonlinear_arith)
        requires
            FP_ONE == 1048576,
    ;
    assert((4 * FP_ONE as int) * (11 * FP_ONE as int) == (44 * FP_ONE as int) * (FP_ONE as int))
        by (nonlinear_arith)
        requires
            FP_ONE == 1048576,
    ;
    lemma_div_exact(44 * FP_ONE as int, FP_ONE as int);
    assert((4 * FP_ONE as int) * (8 * FP_ONE as int) == (32 * FP_ONE as int) * (FP_ONE as int))
        by (nonlinear_arith)
        requires
            FP_ONE == 1048576,
    ;
    lemma_div_exact(32 * FP_ONE as int, FP_ONE as int);
}

/// The peaking coefficient set the cookbook formulas yield, in Q20.
pub open spec fn peaking_coeffs_sp(sr: int, freq: int, q: int, gain_db: int) -> BiquadCoeffs {
    let a = gain_amp_sp(gain_db);
    let qc = clamp_sp(q, 104857, 4194304);
    let wt = w_turn_sp(freq, sr);
    let cw = cos_turn_sp(wt);
    let sw = sin_turn_sp(wt);
    let alpha = div_trunc(sw * FP_ONE as int, 2 * qc);
    let ma = mul_fp_sp(alpha, a);
    let da = div_trunc(alpha * FP_ONE as int, a);
    from_raw_sp(
        FP_ONE as int + ma,
        -2 * cw,
        FP_ONE as int - ma,
        FP_ONE as int + da,
        -2 * cw,
        FP_ONE as int - da,
    )
}

/// Peaking-filter coefficients from the audio-EQ-cookbook formulas with
/// alpha = sin(w0) / (2 Q), Q clamped to [0.1, 4], normalized by a0.
/// A 0 dB gain yields a unity section.
#[verifier::rlimit(60)]
fn peaking_coeffs(sample_rate: u32, freq: i64, q: i64, gain_db: i64) -> (r: BiquadCoeffs)
    requires
        1 <= sample_rate <= SR_MAX,
    ensures
        r == peaking_coeffs_sp(sample_rate as int, freq as int, q as int, gain_db as int),
        coeffs_wf(r),
        gain_db == 0 ==> unity_coeffs_sp(r),
{
    let a = gain_amp(gain_db);
    let qc = clamp_fp(q, 104857, 4194304);
    let wt = w_turn(freq, sample_rate);
    let cw = cos_turn(wt);
    let sw = sin_turn(wt);
    proof {
        assert(0 <= sw as int * FP_ONE as int <= 1099511627776) by (nonlinear_arith)
            requires
                0 <= sw as int <= 1048576,
                FP_ONE == 1048576,
        ;
        lemma_div_trunc_bound_alpha(sw as int, qc as int);
    }
    let alpha = div_fp(sw * FP_ONE, 2 * qc);
    proof {
        lemma_mul_fp_bound(alpha as int, a as int, 6291456, 4 * FP_ONE as int);
        assert(6291456int * (4 * FP_ONE as int) == 26388279066624) by (nonlinear_arith)
            requires
                FP_ONE == 1048576,
        ;
        assert((26388279066624int) / (FP_ONE as int) == 25165824) by {
            lemma_div_exact(25165824, FP_ONE as int);
            assert(25165824int * (FP_ONE as int) == 26388279066624);
        }
        assert(0 <= alpha as int * FP_ONE as int <= 6597069766656) by (nonlinear_arith)
            requires
                0 <= alpha as int <= 6291456,
                FP_ONE == 1048576,
        ;
        crate::fixed::lemma_div_trunc_bound(alpha as int * FP_ONE as int, A0_MIN as int,
            6597069766656);
        assert((6597069766656int) / (A0_MIN as int) == 25165824) by {
            lemma_div_exact(25165824, A0_MIN as int);
            assert(25165824int * (A0_MIN as int) == 6597069766656);
        }
        lemma_div_by_denominator_at_least(alpha as int * FP_ONE as int, A0_MIN as int, a as int);
        lemma_div_pos_is_pos(alpha as int * FP_ONE as int, a as int);
        if gain_db == 0 {
            lemma_mul_fp_one(alpha as int);
            lemma_div_exact(alpha as int, FP_ONE as int);
        }
    }
    let ma = mul_fp(alpha, a);
    let da = div_fp(alpha * FP_ONE, a);
    let tc = 2 * cw;
    let b0 = FP_ONE + ma;
    let b1 = 0 - tc;
    let b2 = FP_ONE - ma;
    let a0 = FP_ONE + da;
    let a1 = 0 - tc;
    let a2 = FP_ONE - da;
    BiquadCoeffs::from_raw(b0, b1, b2, a0, a1, a2)
}

/// alpha = sin(w0) / (2 Q) stays within [0, 6] for Q at least 0.1.
proof fn lemma_div_trunc_bound_alpha(sw: int, qc: int)
    requires
        0 <= sw <= FP_ONE as int,
        104857 <= qc <= 4194304,
    ensures
        0 <= div_trunc(sw * FP_ONE as int, 2 * qc) <= 6291456,
{
    assert(0 <= sw * (FP_ONE as int) <= 1099511627776) by (nonlinear_arith)
        requires
            0 <= sw <= 1048576,
            FP_ONE == 1048576,
    ;
    lemma_div_pos_is_pos(sw * FP_ONE as int, 2 * qc);
    lemma_div_is_ordered(sw * FP_ONE as int, 1099511627776, 2 * qc);
    lemma_div_by_denominator_at_least(1099511627776, 209714, 2 * qc);
    assert((1099511627776int) / 209714 <= 6291456) by {
        lemma_div_is_ordered(1099511627776, 1319406403584, 209714);
        lemma_div_exact(6291456, 209714);
        assert(6291456int * 209714 == 1319406403584) by (nonlinear_arith);
    }
}

/// A larger denominator cannot increase a nonnegative quotient.
proof fn lemma_div_by_denominator_at_least(x: int, d1: int, d2: int)
    requires
        0 <= x,
        1 <= d1 <= d2,
    ensures
        x / d2 <= x / d1,
{
    vstd::arithmetic::div_mod::lemma_div_is_ordered_by_denominator(x, d1, d2);
}

/// One full chain step: the output sample and the six new memory cells
/// (low z1, low z2, mid z1, mid z2, high z1, high z2). Between sections
/// the signal is saturated back into the chain's input range.
pub open spec fn chain_step_sp(low: BiquadState, mid: BiquadState, high: BiquadState, x: int) -> (
    int,
    int,
    int,
    int,
    int,
    int,
    int,
) {
    let l = biquad_step_sp(low.coeffs, low.z1 as int, low.z2 as int, x);
    let lc = clamp_sp(l.0, -(MIX_MAX as int), MIX_MAX as int);
    let m = biquad_step_sp(mid.coeffs, mid.z1 as int, mid.z2 as int, lc);
    let mc = clamp_sp(m.0, -(MIX_MAX as int), MIX_MAX as int);
    let h = biquad_step_sp(high.coeffs, high.z1 as int, high.z2 as int, mc);
    (h.0, l.1, l.2, m.1, m.2, h.1, h.2)
}

/// A chain of three unity sections with cleared memory passes its input
/// through exactly and leaves no trace in the memory cells: with every
/// band at a 0 dB gain setting the equalizer is the identity.
pub proof fn lemma_unity_chain_identity(low: BiquadState, mid: BiquadState, high: BiquadState,
    x: int)
    requires
        unity_coeffs_sp(low.coeffs) && low.z1 == 0 && low.z2 == 0,
        unity_coeffs_sp(mid.coeffs) && mid.z1 == 0 && mid.z2 == 0,
        unity_coeffs_sp(high.coeffs) && high.z1 == 0 && high.z2 == 0,
        -MIX_MAX as int <= x <= MIX_MAX as int,
    ensures
        chain_step_sp(low, mid, high, x) == (x, 0int, 0int, 0int, 0int, 0int, 0int),
{
    lemma_unity_biquad_identity(low.coeffs, x);
    assert(clamp_sp(x, -(MIX_MAX as int), MIX_MAX as int) == x);
    lemma_unity_biquad_identity(mid.coeffs, x);
    lemma_unity_biquad_identity(high.coeffs, x);
}

/// The full three-band chain: low shelf into mid peak into high shelf.
pub struct EqChain {
    pub sample_rate: u32,
    pub low: BiquadState,
    pub mid: BiquadState,
    pub high: BiquadState,
}

/// A well-formed chain: valid rate, all three sections well-formed.
pub open spec fn chain_wf(c: EqChain) -> bool {
    &&& 1 <= c.sample_rate <= SR_MAX
    &&& biquad_wf(c.low)
    &&& biquad_wf(c.mid)
    &&& biquad_wf(c.high)
}

impl EqChain {
    /// A fresh chain of identity sections with cleared memory.
    pub fn new(sample_rate: u32) -> (r: EqChain)
        requires
            1 <= sample_rate <= SR_MAX,
        ensures
            chain_wf(r),
            r.sample_rate == sample_rate,
            unity_coeffs_sp(r.low.coeffs) && unity_coeffs_sp(r.mid.coeffs) && unity_coeffs_sp(
                r.high.coeffs,
            ),
            r.low.z1 == 0 && r.low.z2 == 0 && r.mid.z1 == 0 && r.mid.z2 == 0 && r.high.z1 == 0
                && r.high.z2 == 0,
    {
        EqChain {
            sample_rate,
            low: BiquadState::new(),
            mid: BiquadState::new(),
            high: BiquadState::new(),
        }
    }

    /// Recompute all three coefficient sets from the parameters. The
    /// memory cells persist; any band set to 0 dB becomes a unity section.
    pub fn update(&mut self, params: &SynthParams)
        requires
            chain_wf(*old(self)),
        ensures
            chain_wf(*final(self)),
            final(self).sample_rate == old(self).sample_rate,
            final(self).low.z1 == old(self).low.z1 && final(self).low.z2 == old(self).low.z2,
            final(self).mid.z1 == old(self).mid.z1 && final(self).mid.z2 == old(self).mid.z2,
            final(self).high.z1 == old(self).high.z1 && final(self).high.z2 == old(self).high.z2,
            final(self).low.coeffs == shelf_coeffs_sp(
                old(self).sample_rate as int,
                params.eq_low_freq_hz as int,
                params.eq_low_gain_db as int,
                false,
            ),
            final(self).mid.coeffs == peaking_coeffs_sp(
                old(self).sample_rate as int,
                params.eq_mid_freq_hz as int,
                params.eq_mid_q as int,
                params.eq_mid_gain_db as int,
            ),
            final(self).high.coeffs == shelf_coeffs_sp(
                old(self).sample_rate as int,
                params.eq_high_freq_hz as int,
                params.eq_high_gain_db as int,
                true,
            ),
            params.eq_low_gain_db == 0 ==> unity_coeffs_sp(final(self).low.coeffs),
            params.eq_mid_gain_db == 0 ==> unity_coeffs_sp(final(self).mid.coeffs),
            params.eq_high_gain_db == 0 ==> unity_coeffs_sp(final(self).high.coeffs),
    {
        let low = shelf_coeffs(self.sample_rate, params.eq_low_freq_hz, params.eq_low_gain_db,
            false);
        let mid = peaking_coeffs(self.sample_rate, params.eq_mid_freq_hz, params.eq_mid_q,
            params.eq_mid_gain_db);
        let high = shelf_coeffs(self.sample_rate, params.eq_high_freq_hz, params.eq_high_gain_db,
            true);
        self.low.set_coeffs(low);
        self.mid.set_coeffs(mid);
        self.high.set_coeffs(high);
    }

    /// Run one sample through all three sections in order.
    pub fn process(&mut self, sample: i64) -> (r: i64)
        requires
            chain_wf(*old(self)),
            -MIX_MAX <= sample <= MIX_MAX,
        ensures
            ({
                let t = chain_step_sp(old(self).low, old(self).mid, old(self).high, sample as int);
                &&& r as int == t.0
                &&& final(self).low.z1 as int == t.1 && final(self).low.z2 as int == t.2
                &&& final(self).mid.z1 as int == t.3 && final(self).mid.z2 as int == t.4
                &&& final(self).high.z1 as int == t.5 && final(self).high.z2 as int == t.6
            }),
            final(self).low.coeffs == old(self).low.coeffs,
            final(self).mid.coeffs == old(self).mid.coeffs,
            final(self).high.coeffs == old(self).high.coeffs,
            final(self).sample_rate == old(self).sample_rate,
            chain_wf(*final(self)),
            -EQ_Y_MAX <= r <= EQ_Y_MAX,
    {
        let l = self.low.process(sample);
        let lc = clamp_fp(l, -MIX_MAX, MIX_MAX);
        let m = self.mid.process(lc);
        let mc = clamp_fp(m, -MIX_MAX, MIX_MAX);
        self.high.process(mc)
    }
}

/// Bound facts for coefficient-times-input products.
proof fn lemma_coeff_mix_product()
    ensures
        COEFF_MAX as int * MIX_MAX as int == 288230376151711744,
        (288230376151711744int) / (FP_ONE as int) == 274877906944,
{
    assert(COEFF_MAX as int * MIX_MAX as int == 288230376151711744) by (nonlinear_arith)
        requires
            COEFF_MAX == 268435456,
            MIX_MAX == 1073741824,
    ;
    lemma_div_exact(274877906944, FP_ONE as int);
    assert(274877906944int * (FP_ONE as int) == 288230376151711744);
}

/// Bound facts for coefficient-times-output products.
proof fn lemma_coeff_y_product()
    ensures
        COEFF_MAX as int * EQ_Y_MAX as int == 1152921504606846976,
        (1152921504606846976int) / (FP_ONE as int) == 1099511627776,
{
    assert(COEFF_MAX as int * EQ_Y_MAX as int == 1152921504606846976) by (nonlinear_arith)
        requires
            COEFF_MAX == 268435456,
            EQ_Y_MAX == 4294967296,
    ;
    lemma_div_exact(1099511627776, FP_ONE as int);
    assert(1099511627776int * (FP_ONE as int) == 1152921504606846976);
}

} // verus!
