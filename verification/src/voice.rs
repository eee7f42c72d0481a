//! One voice per sounding note: an ADSR envelope state machine, an
//! oscillator with vibrato and three-voice unison, an instrument coloration
//! stage, a noise blend and a one-pole tone filter.
//!
//! Every mutation of a voice is described exactly by `voice_step_sp` over
//! the voice's mathematical model (`VoiceModel`), and the envelope level is
//! proven to stay inside [0, 1] whatever the parameters are.

use vstd::arithmetic::div_mod::{lemma_div_is_ordered, lemma_div_pos_is_pos, lemma_mod_bound};
use vstd::prelude::*;

use crate::fixed::{
    clamp_fp, clamp_sp, div_fp, div_trunc, lemma_div_trunc_bound, lemma_mul_fp_bound, mul_fp,
    mul_fp_sp, FP_ONE,
};
use crate::params::{wave_sample_sp, InstrumentKind, SynthParams, Waveform};
use crate::trig::{
    exp2_fp, midi_freq_fp, midi_freq_sp, sin_turn, sin_turn_sp, tanh_fp, tanh_sp, TAU_FP,
};

verus! {

/// Greatest sample rate the engine accepts (Hz).
pub const SR_MAX: u32 = 1048576;

/// Cap on time constants (Q20 seconds) before a per-sample step is derived;
/// 2^40 is over a million seconds, far beyond any audible envelope.
pub const TIME_MAX: i64 = 1099511627776;

/// Largest magnitude a single voice's output sample can take (12.0 in Q20):
/// filter output up to 3x full scale, envelope at most 1, gain at most 4.
pub const VOICE_OUT_MAX: i64 = 12582912;

/// The ADSR envelope stage of a voice.
#[derive(Clone, Copy, PartialEq, Eq, Structural, Debug)]
pub enum EnvStage {
    Idle,
    Attack,
    Decay,
    Sustain,
    Release,
}

/// Runtime state of one voice.
#[derive(Clone, Copy, PartialEq, Eq, Structural, Debug)]
pub struct VoiceState {
    /// The MIDI note this voice is bound to, fixed for its lifetime.
    pub note: u8,
    /// Oscillator phase in turns, Q20, in [0, 1).
    pub phase: i64,
    /// Envelope level, Q20, in [0, 1].
    pub env_level: i64,
    /// Envelope stage.
    pub stage: EnvStage,
    /// Whether the note is currently held.
    pub gate: bool,
    /// One-pole filter memory, Q20, in [-1, 1].
    pub filter_state: i64,
    /// Vibrato LFO phase in turns, Q20, in [0, 1).
    pub lfo_phase: i64,
    /// Linear-congruential noise generator state.
    pub noise_seed: u32,
}

/// The mathematical model of a voice: the same fields over unbounded ints.
pub ghost struct VoiceModel {
    pub note: int,
    pub phase: int,
    pub env_level: int,
    pub stage: EnvStage,
    pub gate: bool,
    pub filter_state: int,
    pub lfo_phase: int,
    pub noise_seed: int,
}

impl View for VoiceState {
    type V = VoiceModel;

    open spec fn view(&self) -> VoiceModel {
        VoiceModel {
            note: self.note as int,
            phase: self.phase as int,
            env_level: self.env_level as int,
            stage: self.stage,
            gate: self.gate,
            filter_state: self.filter_state as int,
            lfo_phase: self.lfo_phase as int,
            noise_seed: self.noise_seed as int,
        }
    }
}

impl DeepView for VoiceState {
    type V = VoiceModel;

    open spec fn deep_view(&self) -> VoiceModel {
        self.view()
    }
}

/// A well-formed voice: all phases, levels and filter memory in range.
pub open spec fn voice_wf(v: VoiceModel) -> bool {
    &&& 0 <= v.phase < FP_ONE as int
    &&& 0 <= v.env_level <= FP_ONE as int
    &&& 0 <= v.lfo_phase < FP_ONE as int
    &&& -(FP_ONE as int) <= v.filter_state <= FP_ONE as int
    &&& 0 <= v.note < 128
    &&& 0 <= v.noise_seed < 4294967296
}

/// A fresh voice for `note`: idle, gate released, noise seeded from the note.
pub open spec fn new_voice_sp(note: int) -> VoiceModel {
    VoiceModel {
        note: note,
        phase: 0,
        env_level: 0,
        stage: EnvStage::Idle,
        gate: false,
        filter_state: 0,
        lfo_phase: 0,
        noise_seed: note * 1104607,
    }
}

/// The envelope stage after a gate change: a rising edge retriggers the
/// attack; a falling edge sends any sounding stage into its release tail.
pub open spec fn gate_stage_sp(stage: EnvStage, old_gate: bool, gate: bool) -> EnvStage {
    if gate && !old_gate {
        EnvStage::Attack
    } else if !gate && old_gate && !(stage is Idle) {
        EnvStage::Release
    } else {
        stage
    }
}

/// Per-sample envelope increment derived from a time constant in Q20
/// seconds: 1 / (t * sample_rate), at least one count per sample so every
/// ramp terminates, and a full step for instantaneous (t <= 0) settings.
pub open spec fn env_time_step_sp(t: int, sr: int) -> int {
    if t <= 0 {
        FP_ONE as int
    } else {
        let tc = clamp_sp(t, 0, TIME_MAX as int);
        let s = div_trunc(1099511627776, tc * sr);
        if s < 1 {
            1
        } else {
            s
        }
    }
}

/// One envelope step: the next stage and level.
///
/// Attack rises to full scale then decays; decay falls to the sustain
/// target; sustain tracks the (possibly live-changing) target; release
/// falls to zero and goes idle. All levels stay inside [0, 1].
pub open spec fn env_step_sp(stage: EnvStage, level: int, p: SynthParams, sr: int) -> (EnvStage,
    int) {
    match stage {
        EnvStage::Idle => (EnvStage::Idle, 0),
        EnvStage::Attack => {
            let s = env_time_step_sp(p.attack_seconds as int, sr);
            if level + s >= FP_ONE as int {
                (EnvStage::Decay, FP_ONE as int)
            } else {
                (EnvStage::Attack, level + s)
            }
        },
        EnvStage::Decay => {
            let target = clamp_sp(p.sustain_level as int, 0, FP_ONE as int);
            let s = env_time_step_sp(p.decay_seconds as int, sr);
            let dec = mul_fp_sp(s, FP_ONE as int - target);
            if level - dec <= target {
                (EnvStage::Sustain, target)
            } else {
                (EnvStage::Decay, level - dec)
            }
        },
        EnvStage::Sustain => (EnvStage::Sustain, clamp_sp(p.sustain_level as int, 0, FP_ONE as int)),
        EnvStage::Release => {
            let s = env_time_step_sp(p.release_seconds as int, sr);
            if level - s <= 0 {
                (EnvStage::Idle, 0)
            } else {
                (EnvStage::Release, level - s)
            }
        },
    }
}

/// The envelope after `n` further samples.
pub open spec fn env_iter_sp(stage: EnvStage, level: int, p: SynthParams, sr: int, n: nat) -> (
    EnvStage,
    int,
)
    decreases n,
{
    if n == 0 {
        (stage, level)
    } else {
        let s = env_step_sp(stage, level, p, sr);
        env_iter_sp(s.0, s.1, p, sr, (n - 1) as nat)
    }
}

/// The per-sample envelope increment is always at least one count.
pub proof fn lemma_env_time_step_pos(t: int, sr: int)
    requires
        1 <= sr,
    ensures
        1 <= env_time_step_sp(t, sr),
{
}

/// The envelope level can never leave [0, 1], whatever the parameters:
/// one step from a level in range lands in range, in every stage.
pub proof fn lemma_env_level_bounded(stage: EnvStage, level: int, p: SynthParams, sr: int)
    requires
        0 <= level <= FP_ONE as int,
        1 <= sr,
    ensures
        0 <= env_step_sp(stage, level, p, sr).1 <= FP_ONE as int,
{
    let one = FP_ONE as int;
    match stage {
        EnvStage::Idle => {},
        EnvStage::Attack => {
            lemma_env_time_step_pos(p.attack_seconds as int, sr);
        },
        EnvStage::Decay => {
            let target = clamp_sp(p.sustain_level as int, 0, one);
            let s = env_time_step_sp(p.decay_seconds as int, sr);
            lemma_env_time_step_pos(p.decay_seconds as int, sr);
            assert(0 <= s * (one - target)) by (nonlinear_arith)
                requires
                    0 <= s,
                    0 <= one - target,
            ;
            lemma_div_pos_is_pos(s * (one - target), one);
        },
        EnvStage::Sustain => {},
        EnvStage::Release => {
            lemma_env_time_step_pos(p.release_seconds as int, sr);
        },
    }
}

/// An idle envelope stays idle at level zero.
pub proof fn lemma_idle_absorbing(p: SynthParams, sr: int, n: nat)
    ensures
        env_iter_sp(EnvStage::Idle, 0, p, sr, n) == (EnvStage::Idle, 0int),
    decreases n,
{
    if n > 0 {
        lemma_idle_absorbing(p, sr, (n - 1) as nat);
    }
}

/// The release tail is exact and terminates: while fewer than
/// `level / step` samples have elapsed the voice is still releasing, its
/// level having fallen linearly, and once `n * step` reaches the level
/// the voice is idle at zero and stays there. With
/// `step = 1 / (release_seconds * sample_rate)` this puts the end of the
/// tail at `level * release_seconds * sample_rate` samples, up to
/// rounding, and the level decreases monotonically throughout.
pub proof fn lemma_release_tail(level: int, p: SynthParams, sr: int, n: nat)
    requires
        0 <= level <= FP_ONE as int,
        1 <= sr,
    ensures
        ({
            let s = env_time_step_sp(p.release_seconds as int, sr);
            &&& n * s < level ==> env_iter_sp(EnvStage::Release, level, p, sr, n) == (
                EnvStage::Release,
                level - n * s,
            )
            &&& (n * s >= level && n >= 1) ==> env_iter_sp(EnvStage::Release, level, p, sr, n)
                == (EnvStage::Idle, 0int)
        }),
    decreases n,
{
    let s = env_time_step_sp(p.release_seconds as int, sr);
    lemma_env_time_step_pos(p.release_seconds as int, sr);
    if n == 0 {
        assert(n * s == 0) by (nonlinear_arith)
            requires
                n == 0,
        ;
    } else {
        assert(n * s == (n - 1) * s + s) by (nonlinear_arith);
        assert(0 <= (n - 1) as nat * s) by (nonlinear_arith)
            requires
                0 <= s,
        ;
        if level - s <= 0 {
            // The first step already empties the envelope.
            assert(env_step_sp(EnvStage::Release, level, p, sr) == (EnvStage::Idle, 0int));
            lemma_idle_absorbing(p, sr, (n - 1) as nat);
            assert(n * s >= 1 * s) by (nonlinear_arith)
                requires
                    n >= 1,
                    s >= 0,
            ;
        } else {
            assert(env_step_sp(EnvStage::Release, level, p, sr) == (
                EnvStage::Release,
                level - s,
            ));
            lemma_release_tail(level - s, p, sr, (n - 1) as nat);
        }
    }
}

/// The next state of the 32-bit linear-congruential noise generator.
pub open spec fn lcg_next_sp(seed: int) -> int {
    (seed * 1664525 + 1013904223) % 4294967296
}

/// The noise sample a generator state maps to, spread over [-1, 1] in Q20.
pub open spec fn noise_val_sp(seed: int) -> int {
    div_trunc(((seed / 512) % 8388608) * 2 * FP_ONE as int, 8388607) - FP_ONE as int
}

impl VoiceState {
    /// A fresh, idle voice bound to `note`.
    pub fn new(note: u8) -> (v: VoiceState)
        requires
            note < 128,
        ensures
            v@ == new_voice_sp(note as int),
            voice_wf(v@),
    {
        VoiceState {
            note,
            phase: 0,
            env_level: 0,
            stage: EnvStage::Idle,
            gate: false,
            filter_state: 0,
            lfo_phase: 0,
            noise_seed: (note as u32) * 1104607,
        }
    }

    /// Apply a gate edge: rising retriggers attack, falling starts release.
    pub fn set_gate(&mut self, gate: bool)
        ensures
            final(self).stage == gate_stage_sp(old(self).stage, old(self).gate, gate),
            final(self).gate == gate,
            final(self)@ == (VoiceModel { stage: final(self).stage, gate: gate, ..old(self)@ }),
    {
        if gate && !self.gate {
            self.stage = EnvStage::Attack;
        } else if !gate && self.gate {
            if !matches!(self.stage, EnvStage::Idle) {
                self.stage = EnvStage::Release;
            }
        }
        self.gate = gate;
    }

    /// A voice is finished when its release tail has fully decayed and no
    /// new gate-on has arrived: then the pool may retire it.
    pub fn is_finished(&self) -> (r: bool)
        ensures
            r == (self.stage is Idle && !self.gate),
    {
        matches!(self.stage, EnvStage::Idle) && !self.gate
    }

    /// Advance the envelope by one sample.
    fn advance_envelope(&mut self, p: &SynthParams, sr: u32)
        requires
            1 <= sr <= SR_MAX,
            0 <= old(self).env_level <= FP_ONE,
        ensures
            (final(self).stage, final(self).env_level as int) == env_step_sp(
                old(self).stage,
                old(self).env_level as int,
                *p,
                sr as int,
            ),
            0 <= final(self).env_level <= FP_ONE,
            final(self)@ == (VoiceModel {
                stage: final(self).stage,
                env_level: final(self).env_level as int,
                ..old(self)@
            }),
    {
        match self.stage {
            EnvStage::Idle => {
                self.env_level = 0;
            },
            EnvStage::Attack => {
                let s = env_time_step(p.attack_seconds, sr);
                if self.env_level >= FP_ONE - s {
                    self.env_level = FP_ONE;
                    self.stage = EnvStage::Decay;
                } else {
                    self.env_level = self.env_level + s;
                }
            },
            EnvStage::Decay => {
                let target = clamp_fp(p.sustain_level, 0, FP_ONE);
                let s = env_time_step(p.decay_seconds, sr);
                proof {
                    lemma_mul_fp_bound(
                        s as int,
                        FP_ONE as int - target as int,
                        TIME_MAX as int,
                        FP_ONE as int,
                    );
                    assert(0 <= s as int * (FP_ONE as int - target as int)) by (nonlinear_arith)
                        requires
                            s >= 0,
                            FP_ONE as int - target as int >= 0,
                    ;
                    lemma_div_is_ordered(0, s as int * (FP_ONE as int - target as int),
                        FP_ONE as int);
                    vstd::arithmetic::div_mod::lemma_div_basics(FP_ONE as int);
                }
                let dec = mul_fp(s, FP_ONE - target);
                if self.env_level - dec <= target {
                    self.env_level = target;
                    self.stage = EnvStage::Sustain;
                } else {
                    self.env_level = self.env_level - dec;
                }
            },
            EnvStage::Sustain => {
                self.env_level = clamp_fp(p.sustain_level, 0, FP_ONE);
            },
            EnvStage::Release => {
                let s = env_time_step(p.release_seconds, sr);
                if self.env_level - s <= 0 {
                    self.env_level = 0;
                    self.stage = EnvStage::Idle;
                } else {
                    self.env_level = self.env_level - s;
                }
            },
        }
    }
}

/// Add two phases in [0, 1) turns, wrapping at a full turn.
pub open spec fn phase_add_sp(a: int, b: int) -> int {
    if a + b >= FP_ONE as int {
        a + b - FP_ONE as int
    } else {
        a + b
    }
}

/// Subtract a phase offset in [0, 1) turns, wrapping at zero.
pub open spec fn phase_sub_sp(a: int, b: int) -> int {
    if a - b < 0 {
        a - b + FP_ONE as int
    } else {
        a - b
    }
}

/// The autotune amount, clamped to [0, 1].
pub open spec fn autotune_sp(p: SynthParams) -> int {
    clamp_sp(p.autotune_amount as int, 0, FP_ONE as int)
}

/// Effective vibrato depth in Q20 semitones: the configured depth (clamped
/// to at most 48 semitones) scaled toward zero by the autotune amount.
pub open spec fn vib_depth_sp(p: SynthParams) -> int {
    mul_fp_sp(
        clamp_sp(p.vibrato_depth_semitones as int, 0, 50331648),
        FP_ONE as int - autotune_sp(p),
    )
}

/// Per-sample LFO phase increment: rate / sample_rate, reduced to a turn.
pub open spec fn lfo_inc_sp(p: SynthParams, sr: int) -> int {
    div_trunc(clamp_sp(p.vibrato_rate_hz as int, 0, TIME_MAX as int), sr) % (FP_ONE as int)
}

/// Pitch scale factor 2^(vibrato / 12) for a vibrato offset in Q20
/// semitones, the exponent clamped to four octaves either way.
pub open spec fn pitch_factor_sp(vib: int) -> int {
    crate::trig::exp2_sp(clamp_sp(div_trunc(vib, 12), -4194304, 4194304))
}

/// Per-sample oscillator phase increment: note frequency scaled by the
/// vibrato factor, divided by the sample rate, reduced to a turn.
pub open spec fn osc_inc_sp(note: int, vib: int, sr: int) -> int {
    div_trunc(mul_fp_sp(midi_freq_sp(note), pitch_factor_sp(vib)), sr) % (FP_ONE as int)
}

/// Unison detune in turn fraction: spread in cents scaled by autotune,
/// divided by 1200, at most one fifth of a turn.
pub open spec fn detune_sp(p: SynthParams) -> int {
    let d = div_trunc(
        mul_fp_sp(
            clamp_sp(p.unison_spread_cents as int, 0, 1073741824),
            FP_ONE as int - autotune_sp(p),
        ),
        1200,
    );
    if d > 209715 {
        209715
    } else {
        d
    }
}

/// Three-voice unison: the average of the waveform at the detuned phases,
/// or a single reading when no detune is in effect.
pub open spec fn unison_sp(w: Waveform, base: int, det: int) -> int {
    if det > 0 {
        div_trunc(
            wave_sample_sp(w, phase_sub_sp(base, det)) + wave_sample_sp(w, base) + wave_sample_sp(
                w,
                phase_add_sp(base, det),
            ),
            3,
        )
    } else {
        wave_sample_sp(w, base)
    }
}

/// Instrument coloration: keys pass through; bass blends in a half-
/// frequency sub-oscillator and clamps; lead adds a double-frequency
/// overtone through a saturating tangent; pad attenuates.
pub open spec fn color_sp(s: int, base: int, instrument: InstrumentKind) -> int {
    match instrument {
        InstrumentKind::Keys => s,
        InstrumentKind::Bass => clamp_sp(
            mul_fp_sp(s, 786432) + mul_fp_sp(sin_turn_sp(base / 2), 367001),
            -(FP_ONE as int),
            FP_ONE as int,
        ),
        InstrumentKind::Lead => tanh_sp(
            mul_fp_sp(mul_fp_sp(sin_turn_sp(phase_add_sp(base, base)), 209715) + s, 1258291),
        ),
        InstrumentKind::Pad => mul_fp_sp(s, 943718),
    }
}

/// The one-pole low-pass coefficient input x = min(2 pi fc / fs, 0.99),
/// with the cutoff clamped to [60 Hz, 0.45 * min(fs, 48 kHz)].
pub open spec fn filter_x_sp(p: SynthParams, sr: int) -> int {
    let cap = if sr < 48000 {
        sr
    } else {
        48000
    };
    let c = clamp_sp(p.filter_cutoff_hz as int, 62914560, div_trunc(9 * cap * FP_ONE as int, 20));
    let xr = mul_fp_sp(TAU_FP as int, div_trunc(c, sr));
    if xr > 1038090 {
        1038090
    } else {
        xr
    }
}

/// One one-pole filter step: the new memory cell and the output sample.
/// The memory tracks the input (alpha = x / (1 + x)); the output adds the
/// resonance term `res * (mem - input)` exactly as configured.
pub open spec fn filter_sp(mem: int, input: int, p: SynthParams, sr: int) -> (int, int) {
    let x = filter_x_sp(p, sr);
    let alpha = div_trunc(x * FP_ONE as int, FP_ONE as int + x);
    let mem2 = mem + mul_fp_sp(alpha, input - mem);
    let res = clamp_sp(p.filter_resonance as int, 0, 996147);
    (mem2, mem2 + mul_fp_sp(res, mem2 - input))
}

/// The noise crossfade `s * (1 - mix) + noise * mix`.
pub open spec fn noise_mix_sp(s: int, nz: int, nm: int) -> int {
    mul_fp_sp(s, FP_ONE as int - nm) + mul_fp_sp(nz, nm)
}

/// One full voice step: the next voice state and its output sample.
///
/// An idle voice only holds its level at zero. Otherwise the envelope
/// advances, the vibrato LFO and oscillator phases move, the waveform is
/// read with unison detune, colored, noise-blended, filtered, and scaled
/// by envelope and master gain.
#[verifier::opaque]
pub open spec fn voice_step_sp(v: VoiceModel, p: SynthParams, sr: int) -> (VoiceModel, int) {
    let env = env_step_sp(v.stage, v.env_level, p, sr);
    if env.0 is Idle {
        (VoiceModel { stage: env.0, env_level: env.1, ..v }, 0)
    } else {
        let vd = vib_depth_sp(p);
        let vib = if vd > 0 {
            mul_fp_sp(sin_turn_sp(v.lfo_phase), vd)
        } else {
            0
        };
        let lfo2 = phase_add_sp(v.lfo_phase, lfo_inc_sp(p, sr));
        let phase2 = phase_add_sp(v.phase, osc_inc_sp(v.note, vib, sr));
        let raw = unison_sp(p.waveform, phase2, detune_sp(p));
        let colored = color_sp(raw, phase2, p.instrument);
        let nm = clamp_sp(p.noise_mix as int, 0, FP_ONE as int);
        let seed2 = if nm > 0 {
            lcg_next_sp(v.noise_seed)
        } else {
            v.noise_seed
        };
        let mixed = if nm > 0 {
            noise_mix_sp(colored, noise_val_sp(seed2), nm)
        } else {
            colored
        };
        let fr = filter_sp(v.filter_state, mixed, p, sr);
        let samp = mul_fp_sp(
            mul_fp_sp(fr.1, env.1),
            clamp_sp(p.gain as int, 0, 4194304),
        );
        (
            VoiceModel {
                phase: phase2,
                env_level: env.1,
                stage: env.0,
                filter_state: fr.0,
                lfo_phase: lfo2,
                noise_seed: seed2,
                ..v
            },
            samp,
        )
    }
}

/// Per-sample envelope increment for a time constant (see
/// `env_time_step_sp`).
fn env_time_step(t: i64, sr: u32) -> (r: i64)
    requires
        1 <= sr <= SR_MAX,
    ensures
        r as int == env_time_step_sp(t as int, sr as int),
        1 <= r <= TIME_MAX,
{
    if t <= 0 {
        FP_ONE
    } else {
        let tc = clamp_fp(t, 0, TIME_MAX);
        proof {
            assert(1 <= tc as int * sr as int <= 1152921504606846976) by (nonlinear_arith)
                requires
                    1 <= tc as int <= 1099511627776,
                    1 <= sr as int <= 1048576,
            ;
        }
        let d = tc * (sr as i64);
        let s = div_fp(1099511627776, d);
        if s < 1 {
            1
        } else {
            s
        }
    }
}

/// Add two phases in [0, 1) turns, wrapping at a full turn.
fn phase_add(a: i64, b: i64) -> (r: i64)
    requires
        0 <= a < FP_ONE,
        0 <= b < FP_ONE,
    ensures
        r as int == phase_add_sp(a as int, b as int),
        0 <= r < FP_ONE,
{
    if a + b >= FP_ONE {
        a + b - FP_ONE
    } else {
        a + b
    }
}

/// Subtract a phase offset in [0, 1) turns, wrapping at zero.
fn phase_sub(a: i64, b: i64) -> (r: i64)
    requires
        0 <= a < FP_ONE,
        0 <= b < FP_ONE,
    ensures
        r as int == phase_sub_sp(a as int, b as int),
        0 <= r < FP_ONE,
{
    if a - b < 0 {
        a - b + FP_ONE
    } else {
        a - b
    }
}

/// The one-pole coefficient alpha = x / (1 + x) stays a proper fraction.
proof fn lemma_alpha_range(x: int)
    requires
        0 <= x,
    ensures
        0 <= div_trunc(x * FP_ONE as int, FP_ONE as int + x) < FP_ONE as int,
{
    let one = FP_ONE as int;
    let n = x * one;
    let den = one + x;
    assert(0 <= x * one) by (nonlinear_arith)
        requires
            0 <= x,
            one > 0,
    ;
    lemma_div_pos_is_pos(n, den);
    let q = n / den;
    vstd::arithmetic::div_mod::lemma_fundamental_div_mod(n, den);
    lemma_mod_bound(n, den);
    assert(q < one) by (nonlinear_arith)
        requires
            n == den * q + n % den,
            0 <= n % den,
            n == x * one,
            den == one + x,
            0 <= x,
            0 <= q,
            one == 1048576,
    ;
}

/// The filter memory is a truncated convex combination of old memory and
/// input, so it stays within the signal range.
proof fn lemma_filter_mem_bound(mem: int, input: int, alpha: int)
    requires
        -(FP_ONE as int) <= mem <= FP_ONE as int,
        -(FP_ONE as int) <= input <= FP_ONE as int,
        0 <= alpha < FP_ONE as int,
    ensures
        -(FP_ONE as int) <= mem + mul_fp_sp(alpha, input - mem) <= FP_ONE as int,
{
    let one = FP_ONE as int;
    let t = alpha * (input - mem);
    let d = mul_fp_sp(alpha, input - mem);
    if input >= mem {
        assert(0 <= alpha * (input - mem)) by (nonlinear_arith)
            requires
                0 <= alpha,
                input >= mem,
        ;
        lemma_div_pos_is_pos(t, one);
        assert(d >= 0);
        assert(t <= (one - mem) * one) by (nonlinear_arith)
            requires
                t == alpha * (input - mem),
                0 <= alpha < one,
                mem <= input <= one,
        ;
        lemma_div_is_ordered(t, (one - mem) * one, one);
        assert(((one - mem) * one) / one == one - mem) by {
            crate::fixed::lemma_div_exact(one - mem, FP_ONE as int);
        }
        assert(d <= one - mem);
    } else {
        assert(0 <= -(alpha * (input - mem))) by (nonlinear_arith)
            requires
                0 <= alpha,
                input < mem,
        ;
        lemma_div_pos_is_pos(-t, one);
        assert(d == -((-t) / one));
        assert(d <= 0);
        assert(-t <= (mem + one) * one) by (nonlinear_arith)
            requires
                t == alpha * (input - mem),
                0 <= alpha < one,
                -one <= input < mem,
                mem <= one,
        ;
        lemma_div_is_ordered(-t, (mem + one) * one, one);
        assert(((mem + one) * one) / one == mem + one) by {
            crate::fixed::lemma_div_exact(mem + one, FP_ONE as int);
        }
        assert(-d <= mem + one);
    }
}

impl VoiceState {
    /// Advance the linear-congruential generator and map the new state to
    /// a noise sample in [-1, 1].
    #[verifier::rlimit(50)]
    fn next_noise(&mut self) -> (r: i64)
        ensures
            final(self).noise_seed as int == lcg_next_sp(old(self).noise_seed as int),
            r as int == noise_val_sp(final(self).noise_seed as int),
            -FP_ONE <= r <= FP_ONE,
            final(self)@ == (VoiceModel {
                noise_seed: final(self).noise_seed as int,
                ..old(self)@
            }),
    {
        let seed0 = self.noise_seed;
        proof {
            assert(seed0 as int * 1664525 <= 4294967295int * 1664525) by (nonlinear_arith)
                requires
                    0 <= seed0 as int <= 4294967295,
            ;
        }
        let s2: u64 = ((seed0 as u64) * 1664525 + 1013904223) % 4294967296;
        self.noise_seed = s2 as u32;
        let v: u64 = (s2 / 512) % 8388608;
        proof {
            assert(v as int * 2097152 <= 8388607int * 2097152) by (nonlinear_arith)
                requires
                    0 <= v as int <= 8388607,
            ;
        }
        let scaled: i64 = (v as i64) * (2 * FP_ONE);
        let q = div_fp(scaled, 8388607);
        proof {
            lemma_div_is_ordered(scaled as int, 17592183947264, 8388607);
            assert((17592183947264int) / 8388607 == 2097152) by {
                crate::fixed::lemma_div_exact(2097152, 8388607);
                assert(2097152int * 8388607 == 17592183947264);
            }
            lemma_div_pos_is_pos(scaled as int, 8388607);
        }
        q - FP_ONE
    }

    /// Average the waveform at the unison-detuned phases (see `unison_sp`).
    fn unison_sample(&self, p: &SynthParams, base_phase: i64) -> (r: i64)
        requires
            0 <= base_phase < FP_ONE,
        ensures
            r as int == unison_sp(p.waveform, base_phase as int, detune_sp(*p)),
            -FP_ONE <= r <= FP_ONE,
    {
        let at = clamp_fp(p.autotune_amount, 0, FP_ONE);
        let uc = clamp_fp(p.unison_spread_cents, 0, 1073741824);
        proof {
            lemma_mul_fp_bound(uc as int, FP_ONE as int - at as int, 1073741824, FP_ONE as int);
            assert(0 <= uc as int * (FP_ONE as int - at as int)) by (nonlinear_arith)
                requires
                    0 <= uc as int,
                    0 <= FP_ONE as int - at as int,
            ;
            lemma_div_pos_is_pos(uc as int * (FP_ONE as int - at as int), FP_ONE as int);
        }
        let dm = mul_fp(uc, FP_ONE - at);
        let d0 = div_fp(dm, 1200);
        let det = if d0 > 209715 {
            209715
        } else {
            d0
        };
        if det > 0 {
            let w1 = p.waveform.sample(phase_sub(base_phase, det));
            let w2 = p.waveform.sample(base_phase);
            let w3 = p.waveform.sample(phase_add(base_phase, det));
            let sum = w1 + w2 + w3;
            proof {
                lemma_div_trunc_bound(sum as int, 3, 3 * FP_ONE as int);
                assert((3 * FP_ONE as int) / 3 == FP_ONE as int) by {
                    vstd::arithmetic::div_mod::lemma_div_multiples_vanish(FP_ONE as int, 3);
                    assert(3 * (FP_ONE as int) == (FP_ONE as int) * 3) by (nonlinear_arith);
                }
            }
            div_fp(sum, 3)
        } else {
            p.waveform.sample(base_phase)
        }
    }

    /// Apply the instrument coloration stage (see `color_sp`).
    fn apply_instrument_color(sample: i64, base_phase: i64, instrument: InstrumentKind) -> (r:
        i64)
        requires
            -FP_ONE <= sample <= FP_ONE,
            0 <= base_phase < FP_ONE,
        ensures
            r as int == color_sp(sample as int, base_phase as int, instrument),
            -FP_ONE <= r <= FP_ONE,
    {
        match instrument {
            InstrumentKind::Keys => sample,
            InstrumentKind::Bass => {
                let half = div_fp(base_phase, 2);
                let sub = sin_turn(half);
                proof {
                    lemma_mul_fp_bound(sample as int, 786432, FP_ONE as int, 786432);
                    lemma_mul_fp_bound(sub as int, 367001, FP_ONE as int, 367001);
                    crate::fixed::lemma_div_exact(786432, FP_ONE as int);
                    assert((FP_ONE as int) * 786432 == 786432 * (FP_ONE as int))
                        by (nonlinear_arith);
                    crate::fixed::lemma_div_exact(367001, FP_ONE as int);
                    assert((FP_ONE as int) * 367001 == 367001 * (FP_ONE as int))
                        by (nonlinear_arith);
                }
                let m1 = mul_fp(sample, 786432);
                let m2 = mul_fp(sub, 367001);
                clamp_fp(m1 + m2, -FP_ONE, FP_ONE)
            },
            InstrumentKind::Lead => {
                let dp = phase_add(base_phase, base_phase);
                let sv = sin_turn(dp);
                proof {
                    lemma_mul_fp_bound(sv as int, 209715, FP_ONE as int, 209715);
                    crate::fixed::lemma_div_exact(209715, FP_ONE as int);
                    assert((FP_ONE as int) * 209715 == 209715 * (FP_ONE as int))
                        by (nonlinear_arith);
                }
                let ot = mul_fp(sv, 209715);
                let t = ot + sample;
                proof {
                    lemma_mul_fp_bound(t as int, 1258291, 1258291, 1258291);
                    lemma_div_is_ordered(1583296240681, 4398046511104, FP_ONE as int);
                    assert((4398046511104int) / (FP_ONE as int) == 4194304) by {
                        crate::fixed::lemma_div_exact(4194304, FP_ONE as int);
                        assert(4194304 * (FP_ONE as int) == 4398046511104);
                    }
                    assert((1583296240681int) / (FP_ONE as int) <= 4194304);
                }
                let arg = mul_fp(t, 1258291);
                tanh_fp(arg)
            },
            InstrumentKind::Pad => {
                proof {
                    lemma_mul_fp_bound(sample as int, 943718, FP_ONE as int, 943718);
                    crate::fixed::lemma_div_exact(943718, FP_ONE as int);
                    assert((FP_ONE as int) * 943718 == 943718 * (FP_ONE as int))
                        by (nonlinear_arith);
                }
                mul_fp(sample, 943718)
            },
        }
    }

    /// Run the one-pole tone filter for one sample (see `filter_sp`).
    fn apply_filter(&mut self, input: i64, p: &SynthParams, sr: u32) -> (r: i64)
        requires
            1 <= sr <= SR_MAX,
            -FP_ONE <= input <= FP_ONE,
            -FP_ONE <= old(self).filter_state <= FP_ONE,
        ensures
            (final(self).filter_state as int, r as int) == filter_sp(
                old(self).filter_state as int,
                input as int,
                *p,
                sr as int,
            ),
            -FP_ONE <= final(self).filter_state <= FP_ONE,
            -3 * FP_ONE <= r <= 3 * FP_ONE,
            final(self)@ == (VoiceModel {
                filter_state: final(self).filter_state as int,
                ..old(self)@
            }),
    {
        let cap: i64 = if sr < 48000 {
            sr as i64
        } else {
            48000
        };
        proof {
            assert(9 * cap as int * FP_ONE as int <= 453246124032000) by (nonlinear_arith)
                requires
                    1 <= cap as int <= 48000,
                    FP_ONE == 1048576,
            ;
            assert(9 * cap as int * FP_ONE as int >= 0) by (nonlinear_arith)
                requires
                    1 <= cap as int,
                    FP_ONE == 1048576,
            ;
        }
        let hi = div_fp(9 * cap * FP_ONE, 20);
        let c = clamp_fp(p.filter_cutoff_hz, 62914560, hi);
        proof {
            assert(0 <= c as int <= 62914560 || 0 <= c as int <= hi as int);
            assert(hi as int <= 22662306201600);
        }
        let cr = div_fp(c, sr as i64);
        proof {
            assert(cr as int * TAU_FP as int <= 22662306201600int * 6588397) by (nonlinear_arith)
                requires
                    0 <= cr as int <= 22662306201600,
                    TAU_FP == 6588397,
            ;
            assert(0 <= TAU_FP as int * cr as int) by (nonlinear_arith)
                requires
                    0 <= cr as int,
                    TAU_FP == 6588397,
            ;
            lemma_div_pos_is_pos(TAU_FP as int * cr as int, FP_ONE as int);
        }
        let xr = mul_fp(TAU_FP, cr);
        let x = if xr > 1038090 {
            1038090
        } else {
            xr
        };
        proof {
            lemma_alpha_range(x as int);
            assert(x as int * FP_ONE as int <= 1088516259840) by (nonlinear_arith)
                requires
                    0 <= x as int <= 1038090,
                    FP_ONE == 1048576,
            ;
            assert(0 <= x as int * FP_ONE as int) by (nonlinear_arith)
                requires
                    0 <= x as int,
                    FP_ONE == 1048576,
            ;
        }
        let alpha = div_fp(x * FP_ONE, FP_ONE + x);
        proof {
            lemma_filter_mem_bound(self.filter_state as int, input as int, alpha as int);
            lemma_mul_fp_bound(
                alpha as int,
                input as int - self.filter_state as int,
                FP_ONE as int,
                2 * FP_ONE as int,
            );
        }
        let delta = mul_fp(alpha, input - self.filter_state);
        self.filter_state = self.filter_state + delta;
        let res = clamp_fp(p.filter_resonance, 0, 996147);
        proof {
            lemma_mul_fp_bound(
                res as int,
                self.filter_state as int - input as int,
                996147,
                2 * FP_ONE as int,
            );
            assert(996147int * (2 * FP_ONE as int) == 2089071673344) by (nonlinear_arith)
                requires
                    FP_ONE == 1048576,
            ;
            assert((2089071673344int) / (FP_ONE as int) == 1992294) by {
                crate::fixed::lemma_div_exact(1992294, FP_ONE as int);
                assert(1992294 * (FP_ONE as int) == 2089071673344);
            }
        }
        let rterm = mul_fp(res, self.filter_state - input);
        self.filter_state + rterm
    }

    /// Produce this voice's next output sample and advance all of its
    /// internal state by exactly one sample (see `voice_step_sp`).
    pub fn next_sample(&mut self, p: &SynthParams, sr: u32) -> (r: i64)
        requires
            1 <= sr <= SR_MAX,
            voice_wf(old(self)@),
        ensures
            final(self)@ == voice_step_sp(old(self)@, *p, sr as int).0,
            r as int == voice_step_sp(old(self)@, *p, sr as int).1,
            final(self).note == old(self).note,
            final(self).gate == old(self).gate,
            voice_wf(final(self)@),
            -VOICE_OUT_MAX <= r <= VOICE_OUT_MAX,
    {
        proof {
            reveal(voice_step_sp);
        }
        self.advance_envelope(p, sr);
        if matches!(self.stage, EnvStage::Idle) {
            return 0;
        }
        let at = clamp_fp(p.autotune_amount, 0, FP_ONE);
        let vdc = clamp_fp(p.vibrato_depth_semitones, 0, 50331648);
        proof {
            lemma_mul_fp_bound(vdc as int, FP_ONE as int - at as int, 50331648, FP_ONE as int);
            assert((52776558133248int) / (FP_ONE as int) == 50331648) by {
                crate::fixed::lemma_div_exact(50331648, FP_ONE as int);
                assert(50331648 * (FP_ONE as int) == 52776558133248);
            }
            assert(50331648int * (FP_ONE as int) == 52776558133248) by (nonlinear_arith)
                requires
                    FP_ONE == 1048576,
            ;
        }
        let vd = mul_fp(vdc, FP_ONE - at);
        let vib = if vd > 0 {
            let sv = sin_turn(self.lfo_phase);
            proof {
                lemma_mul_fp_bound(sv as int, vd as int, FP_ONE as int, 50331648);
            }
            mul_fp(sv, vd)
        } else {
            0
        };
        let rate = clamp_fp(p.vibrato_rate_hz, 0, TIME_MAX);
        let li_raw = div_fp(rate, sr as i64);
        let li = ((li_raw as u64) % (FP_ONE as u64)) as i64;
        let lfo2 = phase_add(self.lfo_phase, li);
        self.lfo_phase = lfo2;
        let ex = clamp_fp(div_fp(vib, 12), -4194304, 4194304);
        let factor = exp2_fp(ex);
        let base_freq = midi_freq_fp(self.note);
        proof {
            assert(base_freq as int * factor as int <= 0x4000_0000_0000_0000) by (nonlinear_arith)
                requires
                    0 <= base_freq as int <= 0x20_0000_0000,
                    0 <= factor as int <= 33554432,
            ;
            assert(0 <= base_freq as int * factor as int) by (nonlinear_arith)
                requires
                    0 <= base_freq as int,
                    0 <= factor as int,
            ;
            lemma_div_pos_is_pos(base_freq as int * factor as int, FP_ONE as int);
        }
        let freq = mul_fp(base_freq, factor);
        let oi_raw = div_fp(freq, sr as i64);
        let oi = ((oi_raw as u64) % (FP_ONE as u64)) as i64;
        let phase2 = phase_add(self.phase, oi);
        self.phase = phase2;
        let raw = self.unison_sample(p, phase2);
        let colored = VoiceState::apply_instrument_color(raw, phase2, p.instrument);
        let nm = clamp_fp(p.noise_mix, 0, FP_ONE);
        let mixed = if nm > 0 {
            let nz = self.next_noise();
            proof {
                lemma_mul_fp_bound(
                    colored as int,
                    FP_ONE as int - nm as int,
                    FP_ONE as int,
                    FP_ONE as int - nm as int,
                );
                crate::fixed::lemma_div_exact(FP_ONE as int - nm as int, FP_ONE as int);
                assert((FP_ONE as int) * (FP_ONE as int - nm as int) == (FP_ONE as int
                    - nm as int) * (FP_ONE as int)) by (nonlinear_arith);
                lemma_mul_fp_bound(nz as int, nm as int, FP_ONE as int, nm as int);
                crate::fixed::lemma_div_exact(nm as int, FP_ONE as int);
                assert((FP_ONE as int) * (nm as int) == (nm as int) * (FP_ONE as int))
                    by (nonlinear_arith);
            }
            mul_fp(colored, FP_ONE - nm) + mul_fp(nz, nm)
        } else {
            colored
        };
        let flt = self.apply_filter(mixed, p, sr);
        let env = self.env_level;
        proof {
            lemma_mul_fp_bound(flt as int, env as int, 3 * FP_ONE as int, FP_ONE as int);
            assert((3 * FP_ONE as int) * (FP_ONE as int) == 3298534883328) by (nonlinear_arith)
                requires
                    FP_ONE == 1048576,
            ;
            assert((3298534883328int) / (FP_ONE as int) == 3145728) by {
                crate::fixed::lemma_div_exact(3145728, FP_ONE as int);
                assert(3145728 * (FP_ONE as int) == 3298534883328);
            }
        }
        let inner = mul_fp(flt, env);
        let g = clamp_fp(p.gain, 0, 4194304);
        proof {
            lemma_mul_fp_bound(inner as int, g as int, 3145728, 4194304);
            assert((3145728int) * 4194304 == 13194139533312);
            assert((13194139533312int) / (FP_ONE as int) == 12582912) by {
                crate::fixed::lemma_div_exact(12582912, FP_ONE as int);
                assert(12582912 * (FP_ONE as int) == 13194139533312);
            }
        }
        let out = mul_fp(inner, g);
        out
    }
}

} // verus!
