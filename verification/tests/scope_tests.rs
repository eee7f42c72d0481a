use angel_synth::keys::{is_black, note_label};
use angel_synth::scope::ScopeBuffer;

#[test]
fn scope_keeps_everything_under_capacity() {
    let mut buf = ScopeBuffer::new(8);
    buf.record(&vec![1, 2, 3]);
    assert_eq!(buf.snapshot(), vec![1, 2, 3]);
}

#[test]
fn scope_evicts_oldest_first() {
    let mut buf = ScopeBuffer::new(4);
    buf.record(&vec![1, 2, 3, 4, 5, 6]);
    assert_eq!(buf.snapshot(), vec![3, 4, 5, 6]);
}

#[test]
fn scope_eviction_spans_blocks() {
    let mut buf = ScopeBuffer::new(4);
    buf.record(&vec![1, 2, 3]);
    buf.record(&vec![4, 5]);
    assert_eq!(buf.snapshot(), vec![2, 3, 4, 5]);
}

#[test]
fn scope_snapshot_is_a_copy() {
    let mut buf = ScopeBuffer::new(4);
    buf.record(&vec![7, 8]);
    let snap = buf.snapshot();
    buf.record(&vec![9]);
    assert_eq!(snap, vec![7, 8]);
    assert_eq!(buf.snapshot(), vec![7, 8, 9]);
}

#[test]
fn black_keys_follow_the_octave_pattern() {
    let black = [1u8, 3, 6, 8, 10];
    for k in 0u8..12 {
        assert_eq!(is_black(60 + k), black.contains(&k), "pitch class {}", k);
    }
}

#[test]
fn note_labels_name_pitch_and_octave() {
    assert_eq!(note_label(60), "C4");
    assert_eq!(note_label(69), "A4");
    assert_eq!(note_label(61), "C#4");
    assert_eq!(note_label(0), "C0");
    assert_eq!(note_label(127), "G9");
}
