use angel_synth::engine::SynthEngine;
use angel_synth::fixed::FP_ONE;
use angel_synth::model::SynthShared;
use angel_synth::voice::EnvStage;

const SR: u32 = 48000;

#[test]
fn pressed_note_gets_a_voice_in_attack() {
    let mut shared = SynthShared::default();
    shared.press_note(60);
    let snap = shared.snapshot();
    let mut engine = SynthEngine::new(SR);
    assert!(!engine.has_voice(60));
    engine.next_sample(&snap);
    assert!(engine.has_voice(60));
    assert_eq!(engine.voice_stage(60), Some(EnvStage::Attack));
}

#[test]
fn pressing_twice_never_doubles_a_voice() {
    let mut shared = SynthShared::default();
    shared.press_note(60);
    shared.press_note(60);
    let snap = shared.snapshot();
    let mut engine = SynthEngine::new(SR);
    engine.next_sample(&snap);
    engine.next_sample(&snap);
    assert_eq!(engine.voice_count(), 1);
}

#[test]
fn chord_spawns_one_voice_per_note() {
    let mut shared = SynthShared::default();
    shared.press_note(60);
    shared.press_note(64);
    shared.press_note(67);
    let snap = shared.snapshot();
    let mut engine = SynthEngine::new(SR);
    engine.next_sample(&snap);
    assert_eq!(engine.voice_count(), 3);
    assert!(engine.has_voice(60) && engine.has_voice(64) && engine.has_voice(67));
}

#[test]
fn a4_renders_ten_milliseconds() {
    // Press A4 with the factory patch at 48 kHz and render 10 ms: the
    // envelope must complete its 10 ms attack right around sample 480,
    // and the waveform must cross zero downward about 4.4 times (440 Hz).
    let mut shared = SynthShared::default();
    shared.press_note(69);
    let snap = shared.snapshot();
    let mut engine = SynthEngine::new(SR);
    engine.update_eq(&snap.params);
    let mut samples = Vec::new();
    for _ in 0..480 {
        samples.push(engine.next_sample(&snap));
    }
    // Attack boundary: 0.01 s * 48000 = 480 samples, within rounding.
    let level = engine.voice_level(69).unwrap();
    assert!(level > FP_ONE - 4096, "level {} below full scale", level);
    for _ in 0..10 {
        engine.next_sample(&snap);
    }
    assert_eq!(engine.voice_stage(69), Some(EnvStage::Decay));
    // Just past the attack/decay boundary: at full scale, less a few
    // samples of decay.
    let after = engine.voice_level(69).unwrap();
    assert!(after > FP_ONE - 1024 && after <= FP_ONE, "level {}", after);
    let crossings = samples.windows(2).filter(|w| w[0] > 0 && w[1] <= 0).count();
    assert!(
        (3..=6).contains(&crossings),
        "expected about 4.4 downward crossings, got {}",
        crossings
    );
}

#[test]
fn released_voice_survives_its_release_tail_then_retires() {
    let mut shared = SynthShared::default();
    shared.press_note(60);
    let held = shared.snapshot();
    let mut engine = SynthEngine::new(SR);
    for _ in 0..100 {
        engine.next_sample(&held);
    }
    shared.release_note(60);
    let released = shared.snapshot();
    // After 100 samples of the 10 ms attack the level is 100 steps high;
    // the 0.35 s release drains it over level / release_step samples.
    let mut gone_after = None;
    for i in 0..20000 {
        engine.next_sample(&released);
        if !engine.has_voice(60) {
            gone_after = Some(i + 1);
            break;
        }
        assert!(engine.has_voice(60));
    }
    let gone = gone_after.expect("voice never retired");
    assert!(
        (3400..=3650).contains(&gone),
        "release tail took {} samples, expected about 3500",
        gone
    );
}

#[test]
fn silence_in_gives_silence_out() {
    let shared = SynthShared::default();
    let snap = shared.snapshot();
    let mut engine = SynthEngine::new(SR);
    engine.update_eq(&snap.params);
    for _ in 0..64 {
        assert_eq!(engine.next_sample(&snap), 0);
    }
    assert_eq!(engine.voice_count(), 0);
}
