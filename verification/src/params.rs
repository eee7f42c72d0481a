//! The synthesis parameter model: waveform and instrument variants and the
//! full set of timbre settings, all as Q20 fixed-point values.
//!
//! Parameters are plain data. Every computation that consumes them clamps
//! the fields it uses to its own documented working range, so any parameter
//! value is acceptable everywhere; no setter validation is needed.

use vstd::prelude::*;

use crate::fixed::{FP_HALF, FP_ONE};
use crate::trig::{sin_turn, sin_turn_sp};

verus! {

/// The oscillator's basic wave shape.
#[derive(Clone, Copy, PartialEq, Eq, Structural, Debug)]
pub enum Waveform {
    Sine,
    Square,
    Saw,
    Triangle,
}

/// Instrument coloration applied after the oscillator.
#[derive(Clone, Copy, PartialEq, Eq, Structural, Debug)]
pub enum InstrumentKind {
    Keys,
    Bass,
    Lead,
    Pad,
}

/// The waveform value at a phase `p` in [0, FP_ONE) turns, in Q20.
pub open spec fn wave_sample_sp(w: Waveform, p: int) -> int {
    match w {
        Waveform::Sine => sin_turn_sp(p),
        Waveform::Square => if p < FP_HALF as int {
            FP_ONE as int
        } else {
            -(FP_ONE as int)
        },
        Waveform::Saw => 2 * p - FP_ONE as int,
        Waveform::Triangle => {
            let d = if p >= FP_HALF as int {
                p - FP_HALF as int
            } else {
                FP_HALF as int - p
            };
            FP_ONE as int - 4 * d
        },
    }
}

impl Waveform {
    /// Display name of the wave shape.
    pub fn label(&self) -> (r: &'static str)
        ensures
            self is Sine ==> r@ == "Sine"@,
            self is Square ==> r@ == "Square"@,
            self is Saw ==> r@ == "Saw"@,
            self is Triangle ==> r@ == "Triangle"@,
    {
        match self {
            Waveform::Sine => "Sine",
            Waveform::Square => "Square",
            Waveform::Saw => "Saw",
            Waveform::Triangle => "Triangle",
        }
    }

    /// Sample the wave shape at a phase expressed in turns.
    pub fn sample(&self, phase: i64) -> (r: i64)
        requires
            0 <= phase < FP_ONE,
        ensures
            r as int == wave_sample_sp(*self, phase as int),
            -FP_ONE <= r <= FP_ONE,
    {
        match self {
            Waveform::Sine => sin_turn(phase),
            Waveform::Square => {
                if phase < FP_HALF {
                    FP_ONE
                } else {
                    -FP_ONE
                }
            },
            Waveform::Saw => 2 * phase - FP_ONE,
            Waveform::Triangle => {
                let d = if phase >= FP_HALF {
                    phase - FP_HALF
                } else {
                    FP_HALF - phase
                };
                FP_ONE - 4 * d
            },
        }
    }
}

impl InstrumentKind {
    /// Display name of the coloration variant.
    pub fn label(&self) -> (r: &'static str)
        ensures
            self is Keys ==> r@ == "Keys"@,
            self is Bass ==> r@ == "Bass"@,
            self is Lead ==> r@ == "Lead"@,
            self is Pad ==> r@ == "Pad"@,
    {
        match self {
            InstrumentKind::Keys => "Keys",
            InstrumentKind::Bass => "Bass",
            InstrumentKind::Lead => "Lead",
            InstrumentKind::Pad => "Pad",
        }
    }
}

/// All synthesis settings, as Q20 fixed-point values (times in seconds,
/// frequencies in Hz, gains in dB where the name says so, otherwise unitless).
#[derive(Clone, Copy, PartialEq, Eq, Structural, Debug)]
pub struct SynthParams {
    pub gain: i64,
    pub attack_seconds: i64,
    pub decay_seconds: i64,
    pub sustain_level: i64,
    pub release_seconds: i64,
    pub instrument: InstrumentKind,
    pub waveform: Waveform,
    pub filter_cutoff_hz: i64,
    pub filter_resonance: i64,
    pub vibrato_depth_semitones: i64,
    pub vibrato_rate_hz: i64,
    pub unison_spread_cents: i64,
    pub autotune_amount: i64,
    pub noise_mix: i64,
    pub eq_low_gain_db: i64,
    pub eq_low_freq_hz: i64,
    pub eq_mid_gain_db: i64,
    pub eq_mid_freq_hz: i64,
    pub eq_mid_q: i64,
    pub eq_high_gain_db: i64,
    pub eq_high_freq_hz: i64,
}

/// The factory patch: a soft saw piano voice with mild vibrato and noise.
pub open spec fn default_params_sp() -> SynthParams {
    SynthParams {
        gain: 681574,  // 0.65
        attack_seconds: 10485,  // 0.01 s
        decay_seconds: 209715,  // 0.2 s
        sustain_level: 734003,  // 0.7
        release_seconds: 367001,  // 0.35 s
        instrument: InstrumentKind::Keys,
        waveform: Waveform::Saw,
        filter_cutoff_hz: 4194304000,  // 4 kHz
        filter_resonance: 209715,  // 0.2
        vibrato_depth_semitones: 157286,  // 0.15
        vibrato_rate_hz: 4194304,  // 4 Hz
        unison_spread_cents: 6291456,  // 6 cents
        autotune_amount: 0,
        noise_mix: 31457,  // 0.03
        eq_low_gain_db: 0,
        eq_low_freq_hz: 125829120,  // 120 Hz
        eq_mid_gain_db: 0,
        eq_mid_freq_hz: 1048576000,  // 1 kHz
        eq_mid_q: 838860,  // 0.8
        eq_high_gain_db: 0,
        eq_high_freq_hz: 6291456000,  // 6 kHz
    }
}

impl Default for SynthParams {
    /// The factory patch.
    fn default() -> (r: Self)
        ensures
            r == default_params_sp(),
    {
        SynthParams {
            gain: 681574,
            attack_seconds: 10485,
            decay_seconds: 209715,
            sustain_level: 734003,
            release_seconds: 367001,
            instrument: InstrumentKind::Keys,
            waveform: Waveform::Saw,
            filter_cutoff_hz: 4194304000,
            filter_resonance: 209715,
            vibrato_depth_semitones: 157286,
            vibrato_rate_hz: 4194304,
            unison_spread_cents: 6291456,
            autotune_amount: 0,
            noise_mix: 31457,
            eq_low_gain_db: 0,
            eq_low_freq_hz: 125829120,
            eq_mid_gain_db: 0,
            eq_mid_freq_hz: 1048576000,
            eq_mid_q: 838860,
            eq_high_gain_db: 0,
            eq_high_freq_hz: 6291456000,
        }
    }
}

} // verus!
