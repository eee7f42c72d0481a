use angel_synth::eq::EqChain;
use angel_synth::fixed::FP_ONE;
use angel_synth::params::SynthParams;
use angel_synth::trig::sin_turn;

const SR: u32 = 48000;

#[test]
fn zero_gain_chain_is_exact_identity() {
    // With every band at 0 dB the cascade passes samples through
    // unchanged, bit for bit, from cleared state.
    let mut chain = EqChain::new(SR);
    let p = SynthParams::default();  // all EQ gains are 0 dB
    chain.update(&p);
    for x in [0i64, 1, -1, FP_ONE, -FP_ONE, 123456, -987654, 1000 * FP_ONE] {
        assert_eq!(chain.process(x), x);
    }
}

#[test]
fn fresh_chain_is_identity_before_any_update() {
    let mut chain = EqChain::new(SR);
    for x in [7i64, -7, FP_ONE] {
        assert_eq!(chain.process(x), x);
    }
}

#[test]
fn twelve_db_mid_boost_quadruples_a_centered_sine() {
    // +12 dB at the default 1 kHz center: a steady 1 kHz sine of
    // amplitude 0.5 must come out with amplitude about 2.0 (4x).
    let mut chain = EqChain::new(SR);
    let mut p = SynthParams::default();
    p.eq_mid_gain_db = 12 * FP_ONE;
    chain.update(&p);
    let amp = FP_ONE / 2;
    let inc = 1000 * FP_ONE / SR as i64;
    let mut phase: i64 = 0;
    let mut peak: i64 = 0;
    for i in 0..9600 {
        let x = (amp * sin_turn(phase)) / FP_ONE;
        phase = (phase + inc) % FP_ONE;
        let y = chain.process(x);
        if i >= 8640 {
            peak = peak.max(y.abs());
        }
    }
    let ratio = peak as f64 / amp as f64;
    assert!((3.6..=4.4).contains(&ratio), "steady-state gain {} not near 4", ratio);
}

#[test]
fn coefficient_update_preserves_filter_memory() {
    let mut chain = EqChain::new(SR);
    let mut p = SynthParams::default();
    p.eq_low_gain_db = 6 * FP_ONE;
    chain.update(&p);
    for _ in 0..32 {
        chain.process(FP_ONE / 4);
    }
    let before = (chain.low.z1, chain.low.z2, chain.mid.z1, chain.high.z2);
    p.eq_low_gain_db = -6 * FP_ONE;
    chain.update(&p);
    let after = (chain.low.z1, chain.low.z2, chain.mid.z1, chain.high.z2);
    assert_eq!(before, after);
}

#[test]
fn negative_gain_attenuates() {
    let mut chain = EqChain::new(SR);
    let mut p = SynthParams::default();
    p.eq_mid_gain_db = -12 * FP_ONE;
    chain.update(&p);
    let amp = FP_ONE / 2;
    let inc = 1000 * FP_ONE / SR as i64;
    let mut phase: i64 = 0;
    let mut peak: i64 = 0;
    for i in 0..9600 {
        let x = (amp * sin_turn(phase)) / FP_ONE;
        phase = (phase + inc) % FP_ONE;
        let y = chain.process(x);
        if i >= 8640 {
            peak = peak.max(y.abs());
        }
    }
    let ratio = peak as f64 / amp as f64;
    assert!(ratio < 0.5, "cut gain {} not attenuating", ratio);
}
