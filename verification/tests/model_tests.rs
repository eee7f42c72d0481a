use angel_synth::model::SynthShared;
use angel_synth::params::SynthParams;

#[test]
fn press_adds_note() {
    let mut shared = SynthShared::default();
    assert!(!shared.is_pressed(60));
    shared.press_note(60);
    assert!(shared.is_pressed(60));
    assert!(!shared.is_pressed(61));
}

#[test]
fn release_removes_note() {
    let mut shared = SynthShared::default();
    shared.press_note(60);
    shared.release_note(60);
    assert!(!shared.is_pressed(60));
}

#[test]
fn release_of_absent_note_is_noop() {
    let mut shared = SynthShared::default();
    shared.press_note(64);
    shared.release_note(60);
    assert!(shared.is_pressed(64));
    assert_eq!(shared.snapshot().pressed_notes, vec![64]);
}

#[test]
fn press_is_idempotent() {
    let mut shared = SynthShared::default();
    shared.press_note(60);
    shared.press_note(60);
    let snap = shared.snapshot();
    assert_eq!(snap.pressed_notes, vec![60]);
}

#[test]
fn press_release_round_trip_restores_set() {
    let mut shared = SynthShared::default();
    shared.press_note(62);
    shared.press_note(60);
    shared.release_note(60);
    let snap = shared.snapshot();
    assert_eq!(snap.pressed_notes, vec![62]);
    assert!(!shared.is_pressed(60));
}

#[test]
fn snapshot_is_sorted_ascending() {
    let mut shared = SynthShared::default();
    shared.press_note(72);
    shared.press_note(60);
    shared.press_note(67);
    shared.press_note(64);
    let snap = shared.snapshot();
    assert_eq!(snap.pressed_notes, vec![60, 64, 67, 72]);
}

#[test]
fn snapshot_is_independent_of_later_mutation() {
    let mut shared = SynthShared::default();
    shared.press_note(60);
    let snap = shared.snapshot();
    shared.press_note(64);
    shared.release_note(60);
    assert_eq!(snap.pressed_notes, vec![60]);
    assert_eq!(snap.params, shared.params);
}

#[test]
fn new_with_params_keeps_params() {
    let mut params = SynthParams::default();
    params.gain = 123456;
    let shared = SynthShared::new_with_params(params);
    assert_eq!(shared.params.gain, 123456);
    assert_eq!(shared.snapshot().pressed_notes.len(), 0);
}
