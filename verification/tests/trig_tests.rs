use angel_synth::fixed::{clamp_fp, div_fp, mul_fp, FP_HALF, FP_ONE, FP_QUARTER};
use angel_synth::trig::{cos_turn, exp2_fp, midi_freq_fp, sin_turn, sqrt_fp, tanh_fp};

const ONE_F: f64 = 1048576.0;

#[test]
fn fixed_multiply_truncates_toward_zero() {
    assert_eq!(mul_fp(FP_HALF, FP_HALF), FP_QUARTER);
    assert_eq!(mul_fp(-FP_HALF, FP_HALF), -FP_QUARTER);
    assert_eq!(mul_fp(3, 3), 0);
    assert_eq!(mul_fp(-3, 3), 0);
}

#[test]
fn fixed_divide_truncates_toward_zero() {
    assert_eq!(div_fp(7, 2), 3);
    assert_eq!(div_fp(-7, 2), -3);
    assert_eq!(div_fp(FP_ONE, FP_ONE), 1);
}

#[test]
fn clamp_limits_both_sides() {
    assert_eq!(clamp_fp(5, 0, 3), 3);
    assert_eq!(clamp_fp(-5, 0, 3), 0);
    assert_eq!(clamp_fp(2, 0, 3), 2);
}

#[test]
fn sine_hits_exact_quarter_points() {
    assert_eq!(sin_turn(0), 0);
    assert_eq!(sin_turn(FP_QUARTER), FP_ONE);
    assert_eq!(sin_turn(FP_HALF), 0);
    assert_eq!(sin_turn(FP_HALF + FP_QUARTER), -FP_ONE);
    assert_eq!(cos_turn(0), FP_ONE);
}

#[test]
fn sine_tracks_the_real_function() {
    for i in 0..512 {
        let p = i * (FP_ONE / 512);
        let got = sin_turn(p) as f64 / ONE_F;
        let want = (2.0 * std::f64::consts::PI * (p as f64 / ONE_F)).sin();
        assert!((got - want).abs() < 0.002, "p={} got={} want={}", p, got, want);
    }
}

#[test]
fn exp2_is_exact_at_integers() {
    assert_eq!(exp2_fp(0), FP_ONE);
    assert_eq!(exp2_fp(FP_ONE), 2 * FP_ONE);
    assert_eq!(exp2_fp(2 * FP_ONE), 4 * FP_ONE);
}

#[test]
fn exp2_tracks_the_real_function() {
    for i in -40..40 {
        let x = i * (FP_ONE / 8);
        let got = exp2_fp(x) as f64 / ONE_F;
        let want = (x as f64 / ONE_F).exp2();
        assert!((got / want - 1.0).abs() < 3e-4, "x={} got={} want={}", x, got, want);
    }
}

#[test]
fn sqrt_is_exact_on_squares() {
    assert_eq!(sqrt_fp(FP_ONE), FP_ONE);
    assert_eq!(sqrt_fp(4 * FP_ONE), 2 * FP_ONE);
    assert_eq!(sqrt_fp(0), 0);
}

#[test]
fn tanh_is_odd_and_saturating() {
    assert_eq!(tanh_fp(0), 0);
    assert_eq!(tanh_fp(FP_ONE), -tanh_fp(-FP_ONE));
    let t = tanh_fp(FP_ONE) as f64 / ONE_F;
    assert!((t - 0.7615941559).abs() < 0.03);
    assert!(tanh_fp(4 * FP_ONE) <= FP_ONE);
}

#[test]
fn concert_pitch_is_exact() {
    assert_eq!(midi_freq_fp(69), 440 * FP_ONE);
}

#[test]
fn midi_frequencies_track_equal_temperament() {
    for note in [0u8, 21, 60, 69, 81, 108, 127] {
        let got = midi_freq_fp(note) as f64 / ONE_F;
        let want = 440.0 * ((note as f64 - 69.0) / 12.0).exp2();
        assert!((got / want - 1.0).abs() < 1e-4, "note={} got={} want={}", note, got, want);
    }
}

#[test]
fn octaves_double_exactly() {
    assert_eq!(midi_freq_fp(81), 880 * FP_ONE);
    assert_eq!(midi_freq_fp(57), 220 * FP_ONE);
}
