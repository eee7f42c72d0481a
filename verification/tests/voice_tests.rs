use angel_synth::fixed::FP_ONE;
use angel_synth::params::{SynthParams, Waveform};
use angel_synth::voice::{EnvStage, VoiceState};

const SR: u32 = 48000;

#[test]
fn gate_on_starts_attack() {
    let mut v = VoiceState::new(60);
    assert_eq!(v.stage, EnvStage::Idle);
    assert!(!v.gate);
    v.set_gate(true);
    assert_eq!(v.stage, EnvStage::Attack);
    assert!(v.gate);
}

#[test]
fn gate_off_enters_release_not_idle() {
    let mut v = VoiceState::new(60);
    v.set_gate(true);
    let p = SynthParams::default();
    for _ in 0..10 {
        v.next_sample(&p, SR);
    }
    assert_eq!(v.stage, EnvStage::Attack);
    v.set_gate(false);
    assert_eq!(v.stage, EnvStage::Release);
    assert!(!v.is_finished());
}

#[test]
fn regate_during_release_restarts_attack() {
    let mut v = VoiceState::new(60);
    v.set_gate(true);
    let p = SynthParams::default();
    for _ in 0..10 {
        v.next_sample(&p, SR);
    }
    v.set_gate(false);
    v.next_sample(&p, SR);
    v.set_gate(true);
    assert_eq!(v.stage, EnvStage::Attack);
}

#[test]
fn attack_reaches_full_scale_then_decays() {
    let mut v = VoiceState::new(69);
    v.set_gate(true);
    let p = SynthParams::default();
    // Default attack is 10 ms: full scale within 490 samples at 48 kHz.
    let mut reached_at = None;
    for i in 0..600 {
        v.next_sample(&p, SR);
        if v.env_level == FP_ONE && reached_at.is_none() {
            reached_at = Some(i);
        }
    }
    let at = reached_at.expect("attack never completed");
    assert!((470..=490).contains(&at), "full scale at sample {}", at);
    assert_eq!(v.stage, EnvStage::Decay);
}

#[test]
fn envelope_is_clamped_with_pathological_times() {
    let mut p = SynthParams::default();
    p.attack_seconds = 0;
    p.decay_seconds = -5 * FP_ONE;
    p.sustain_level = 2 * FP_ONE;  // clamps to 1.0
    let mut v = VoiceState::new(60);
    v.set_gate(true);
    for _ in 0..50 {
        v.next_sample(&p, SR);
        assert!(v.env_level >= 0);
        assert!(v.env_level <= FP_ONE);
    }
    // Instant attack: full scale after the very first sample.
    let mut v2 = VoiceState::new(60);
    v2.set_gate(true);
    v2.next_sample(&p, SR);
    assert_eq!(v2.env_level, FP_ONE);
}

#[test]
fn instant_release_goes_idle_in_one_sample() {
    let mut p = SynthParams::default();
    p.attack_seconds = 0;
    p.release_seconds = 0;
    let mut v = VoiceState::new(60);
    v.set_gate(true);
    v.next_sample(&p, SR);
    v.set_gate(false);
    v.next_sample(&p, SR);
    assert_eq!(v.stage, EnvStage::Idle);
    assert_eq!(v.env_level, 0);
    assert!(v.is_finished());
}

#[test]
fn sustain_tracks_live_target() {
    let mut p = SynthParams::default();
    p.attack_seconds = 0;
    p.decay_seconds = 0;
    let mut v = VoiceState::new(60);
    v.set_gate(true);
    for _ in 0..5 {
        v.next_sample(&p, SR);
    }
    assert_eq!(v.stage, EnvStage::Sustain);
    assert_eq!(v.env_level, 734003);  // the default sustain level
    p.sustain_level = FP_ONE / 2;
    v.next_sample(&p, SR);
    assert_eq!(v.env_level, FP_ONE / 2);
}

#[test]
fn release_level_falls_monotonically_to_zero() {
    let p = SynthParams::default();
    let mut v = VoiceState::new(60);
    v.set_gate(true);
    for _ in 0..2000 {
        v.next_sample(&p, SR);
    }
    v.set_gate(false);
    let mut last = v.env_level;
    let mut reached_idle = false;
    for _ in 0..30000 {
        v.next_sample(&p, SR);
        assert!(v.env_level <= last, "release level rose");
        last = v.env_level;
        if v.stage == EnvStage::Idle {
            reached_idle = true;
            break;
        }
        assert_ne!(v.stage, EnvStage::Idle);
    }
    assert!(reached_idle);
    assert_eq!(v.env_level, 0);
    // An idle voice whose gate is released reports finished.
    v.next_sample(&p, SR);
    assert!(v.is_finished());
}

#[test]
fn waveform_samples_at_key_phases() {
    assert_eq!(Waveform::Saw.sample(0), -FP_ONE);
    assert_eq!(Waveform::Saw.sample(FP_ONE / 2), 0);
    assert_eq!(Waveform::Square.sample(0), FP_ONE);
    assert_eq!(Waveform::Square.sample(FP_ONE / 2), -FP_ONE);
    assert_eq!(Waveform::Triangle.sample(FP_ONE / 2), FP_ONE);
    assert_eq!(Waveform::Triangle.sample(0), -FP_ONE);
    assert_eq!(Waveform::Sine.sample(0), 0);
}

#[test]
fn voice_output_is_bounded() {
    let mut p = SynthParams::default();
    p.gain = 4 * FP_ONE;
    p.filter_resonance = FP_ONE;  // clamps to 0.95
    p.noise_mix = FP_ONE;
    let mut v = VoiceState::new(30);
    v.set_gate(true);
    for _ in 0..2000 {
        let s = v.next_sample(&p, SR);
        assert!(s.abs() <= 12 * FP_ONE);
    }
}
