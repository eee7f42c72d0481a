use angel_synth::fixed::FP_ONE;
use angel_synth::params::Waveform;
use angel_synth::settings::{
    apply_kv, apply_line, parse_fixed, parse_waveform, waveform_key, AppSettings, KeybindScheme,
    LayoutMode, ThemeKind,
};

#[test]
fn parse_fixed_handles_plain_numbers() {
    assert_eq!(parse_fixed("1"), Some(FP_ONE));
    assert_eq!(parse_fixed("0"), Some(0));
    assert_eq!(parse_fixed("-2"), Some(-2 * FP_ONE));
    assert_eq!(parse_fixed("4000"), Some(4000 * FP_ONE));
}

#[test]
fn parse_fixed_handles_fractions() {
    assert_eq!(parse_fixed("1.5"), Some(FP_ONE + FP_ONE / 2));
    assert_eq!(parse_fixed("0.25"), Some(FP_ONE / 4));
    assert_eq!(parse_fixed("-0.5"), Some(-FP_ONE / 2));
    assert_eq!(parse_fixed(".5"), Some(FP_ONE / 2));
    assert_eq!(parse_fixed("1."), Some(FP_ONE));
    // 0.65 truncates toward zero in Q20: floor(0.65 * 2^20) = 681574.
    assert_eq!(parse_fixed("0.65"), Some(681574));
}

#[test]
fn parse_fixed_ignores_digits_beyond_the_ninth() {
    assert_eq!(parse_fixed("1.0000000005"), Some(FP_ONE));
}

#[test]
fn parse_fixed_rejects_malformed_text() {
    assert_eq!(parse_fixed(""), None);
    assert_eq!(parse_fixed("-"), None);
    assert_eq!(parse_fixed("."), None);
    assert_eq!(parse_fixed("12a"), None);
    assert_eq!(parse_fixed("1.2.3"), None);
    assert_eq!(parse_fixed("--1"), None);
    assert_eq!(parse_fixed("9999999999999"), None);  // 13 integer digits
}

#[test]
fn theme_keys_round_trip() {
    let all = [
        ThemeKind::Fl,
        ThemeKind::Light,
        ThemeKind::Midnight,
        ThemeKind::Sunset,
        ThemeKind::Neon,
        ThemeKind::Forest,
        ThemeKind::Ocean,
        ThemeKind::Vapor,
        ThemeKind::Mono,
        ThemeKind::Pastel,
        ThemeKind::SolarizedDark,
        ThemeKind::SolarizedLight,
        ThemeKind::Industrial,
        ThemeKind::Candy,
        ThemeKind::Terminal,
    ];
    for t in all {
        assert_eq!(ThemeKind::from_str(t.as_key()), t);
        assert!(!t.label().is_empty());
    }
    assert_eq!(ThemeKind::from_str("SOLARIZED-DARK"), ThemeKind::SolarizedDark);
    assert_eq!(ThemeKind::from_str("nonsense"), ThemeKind::Fl);
}

#[test]
fn layout_keys_round_trip() {
    for l in [LayoutMode::Stacked, LayoutMode::TwoColumn, LayoutMode::ThreeColumn] {
        assert_eq!(LayoutMode::from_str(l.as_key()), l);
        assert!(!l.label().is_empty());
    }
    assert_eq!(LayoutMode::from_str("two-column"), LayoutMode::TwoColumn);
    assert_eq!(LayoutMode::from_str("anything"), LayoutMode::ThreeColumn);
}

#[test]
fn keybind_keys_round_trip() {
    let all = [
        KeybindScheme::Default,
        KeybindScheme::Vim,
        KeybindScheme::Emacs,
        KeybindScheme::Sublime,
        KeybindScheme::VSCode,
    ];
    for k in all {
        assert_eq!(KeybindScheme::from_str(k.as_key()), k);
        assert!(!k.label().is_empty());
    }
    assert_eq!(KeybindScheme::from_str("vs code"), KeybindScheme::VSCode);
    assert_eq!(KeybindScheme::from_str("VIM"), KeybindScheme::Vim);
}

#[test]
fn waveform_keys_round_trip() {
    for w in [Waveform::Sine, Waveform::Square, Waveform::Saw, Waveform::Triangle] {
        assert_eq!(parse_waveform(waveform_key(w)), Some(w));
    }
    assert_eq!(parse_waveform("sawtooth"), Some(Waveform::Saw));
    assert_eq!(parse_waveform("SQUARE"), Some(Waveform::Square));
    assert_eq!(parse_waveform("noise"), None);
}

#[test]
fn apply_kv_sets_numeric_fields() {
    let mut s = AppSettings::default();
    apply_kv("gain", "0.5", &mut s);
    assert_eq!(s.params.gain, FP_ONE / 2);
    apply_kv("eq_mid_gain_db", "12", &mut s);
    assert_eq!(s.params.eq_mid_gain_db, 12 * FP_ONE);
    apply_kv("card_padding", "16", &mut s);
    assert_eq!(s.card_padding, 16 * FP_ONE);
}

#[test]
fn apply_kv_sets_variant_fields() {
    let mut s = AppSettings::default();
    apply_kv("theme", "neon", &mut s);
    assert_eq!(s.theme, ThemeKind::Neon);
    apply_kv("waveform", "square", &mut s);
    assert_eq!(s.params.waveform, Waveform::Square);
    apply_kv("keybinds", "emacs", &mut s);
    assert_eq!(s.keybinds, KeybindScheme::Emacs);
    apply_kv("layout_mode", "stacked", &mut s);
    assert_eq!(s.layout_mode, LayoutMode::Stacked);
}

#[test]
fn apply_kv_sets_output_device() {
    let mut s = AppSettings::default();
    apply_kv("output_device", "Speakers", &mut s);
    assert_eq!(s.output_device.as_deref(), Some("Speakers"));
    apply_kv("output_device", "", &mut s);
    assert_eq!(s.output_device, None);
}

#[test]
fn apply_line_trims_and_skips_comments() {
    let mut s = AppSettings::default();
    apply_line("  gain = 0.5  ", &mut s);
    assert_eq!(s.params.gain, FP_ONE / 2);
    apply_line("# gain = 0.9", &mut s);
    apply_line("", &mut s);
    apply_line("   ", &mut s);
    apply_line("no equals sign here", &mut s);
    assert_eq!(s.params.gain, FP_ONE / 2);
    apply_line("\ttheme=ocean\r", &mut s);
    assert_eq!(s.theme, ThemeKind::Ocean);
}

#[test]
fn apply_kv_ignores_unknown_keys_and_bad_numbers() {
    let mut s = AppSettings::default();
    let before_gain = s.params.gain;
    apply_kv("no_such_key", "1", &mut s);
    apply_kv("gain", "not a number", &mut s);
    assert_eq!(s.params.gain, before_gain);
    apply_kv("waveform", "unknown", &mut s);
    assert_eq!(s.params.waveform, Waveform::Saw);
}
