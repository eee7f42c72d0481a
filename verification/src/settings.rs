//! Application settings and their text form.
//!
//! A settings file is a sequence of `key=value` lines. This module holds
//! the verified side of that format: the closed sets of theme, layout and
//! key-binding choices with their names and keys, an exact decimal parser
//! into Q20 fixed point, and `apply_kv`, which maps one key/value pair
//! onto the settings. Reading and writing the file itself is I/O and
//! stays with the caller.

use vstd::prelude::*;
use vstd::string::StrSliceExecFns;

use crate::fixed::{div_fp, div_trunc, FP_ONE};
use crate::params::{SynthParams, Waveform};

verus! {

/// The color theme of the application window.
#[derive(Clone, Copy, PartialEq, Eq, Structural, Debug)]
pub enum ThemeKind {
    Fl,
    Light,
    Midnight,
    Sunset,
    Neon,
    Forest,
    Ocean,
    Vapor,
    Mono,
    Pastel,
    SolarizedDark,
    SolarizedLight,
    Industrial,
    Candy,
    Terminal,
}

/// How the control panels are arranged.
#[derive(Clone, Copy, PartialEq, Eq, Structural, Debug)]
pub enum LayoutMode {
    Stacked,
    TwoColumn,
    ThreeColumn,
}

/// Which keyboard-shortcut scheme is active.
#[derive(Clone, Copy, PartialEq, Eq, Structural, Debug)]
pub enum KeybindScheme {
    Default,
    Vim,
    Emacs,
    Sublime,
    VSCode,
}

/// Character `a` matches pattern character `k` up to ASCII case: they are
/// equal, or `k` is a lowercase letter and `a` its uppercase form.
pub open spec fn ci_char_sp(a: char, k: char) -> bool {
    a == k || (97 <= k as u32 <= 122 && a as u32 + 32 == k as u32)
}

/// ASCII-case-insensitive match of a string against a lowercase pattern.
pub open spec fn ci_eq_sp(s: Seq<char>, key: Seq<char>) -> bool {
    s.len() == key.len() && forall|i: int| 0 <= i < s.len() ==> ci_char_sp(s[i], #[trigger] key[i])
}

/// ASCII-case-insensitive comparison against a lowercase pattern.
fn ci_eq(s: &str, key: &str) -> (r: bool)
    ensures
        r == ci_eq_sp(s@, key@),
{
    let n = s.unicode_len();
    if n != key.unicode_len() {
        return false;
    }
    let mut i: usize = 0;
    while i < n
        invariant
            i <= n == s@.len(),
            n == key@.len(),
            forall|j: int| 0 <= j < i ==> ci_char_sp(s@[j], #[trigger] key@[j]),
        decreases n - i,
    {
        let a = s.get_char(i);
        let k = key.get_char(i);
        let ok = a == k || (97 <= k as u32 && k as u32 <= 122 && a as u32 + 32 == k as u32);
        if !ok {
            return false;
        }
        i = i + 1;
    }
    true
}

/// Exact string equality.
fn str_eq(s: &str, key: &str) -> (r: bool)
    ensures
        r == (s@ == key@),
{
    let n = s.unicode_len();
    if n != key.unicode_len() {
        proof {
            assert(s@ != key@);
        }
        return false;
    }
    let mut i: usize = 0;
    while i < n
        invariant
            i <= n == s@.len(),
            n == key@.len(),
            forall|j: int| 0 <= j < i ==> s@[j] == #[trigger] key@[j],
        decreases n - i,
    {
        if s.get_char(i) != key.get_char(i) {
            return false;
        }
        i = i + 1;
    }
    proof {
        assert(s@ =~= key@);
    }
    true
}

impl ThemeKind {
    /// Display name of the theme.
    pub fn label(self) -> (r: &'static str)
        ensures
            self is Fl ==> r@ == "FL Dark"@,
            self is Light ==> r@ == "Light"@,
            self is Midnight ==> r@ == "Midnight"@,
            self is Sunset ==> r@ == "Sunset"@,
            self is Neon ==> r@ == "Neon"@,
            self is Forest ==> r@ == "Forest"@,
            self is Ocean ==> r@ == "Ocean"@,
            self is Vapor ==> r@ == "Vapor"@,
            self is Mono ==> r@ == "Mono"@,
            self is Pastel ==> r@ == "Pastel"@,
            self is SolarizedDark ==> r@ == "Solarized Dark"@,
            self is SolarizedLight ==> r@ == "Solarized Light"@,
            self is Industrial ==> r@ == "Industrial"@,
            self is Candy ==> r@ == "Candy"@,
            self is Terminal ==> r@ == "Terminal"@,
    {
        match self {
            ThemeKind::Fl => "FL Dark",
            ThemeKind::Light => "Light",
            ThemeKind::Midnight => "Midnight",
            ThemeKind::Sunset => "Sunset",
            ThemeKind::Neon => "Neon",
            ThemeKind::Forest => "Forest",
            ThemeKind::Ocean => "Ocean",
            ThemeKind::Vapor => "Vapor",
            ThemeKind::Mono => "Mono",
            ThemeKind::Pastel => "Pastel",
            ThemeKind::SolarizedDark => "Solarized Dark",
            ThemeKind::SolarizedLight => "Solarized Light",
            ThemeKind::Industrial => "Industrial",
            ThemeKind::Candy => "Candy",
            ThemeKind::Terminal => "Terminal",
        }
    }

    /// Parse a theme from its configuration key, ignoring ASCII case;
    /// anything unknown falls back to the default dark theme.
    pub fn from_str(s: &str) -> (r: ThemeKind)
        ensures
            r == theme_from_str_sp(s@),
    {
        if ci_eq(s, "light") {
            ThemeKind::Light
        } else if ci_eq(s, "midnight") {
            ThemeKind::Midnight
        } else if ci_eq(s, "sunset") {
            ThemeKind::Sunset
        } else if ci_eq(s, "neon") {
            ThemeKind::Neon
        } else if ci_eq(s, "forest") {
            ThemeKind::Forest
        } else if ci_eq(s, "ocean") {
            ThemeKind::Ocean
        } else if ci_eq(s, "vapor") {
            ThemeKind::Vapor
        } else if ci_eq(s, "mono") {
            ThemeKind::Mono
        } else if ci_eq(s, "pastel") {
            ThemeKind::Pastel
        } else if ci_eq(s, "solarized_dark") || ci_eq(s, "solarized-dark") {
            ThemeKind::SolarizedDark
        } else if ci_eq(s, "solarized_light") || ci_eq(s, "solarized-light") {
            ThemeKind::SolarizedLight
        } else if ci_eq(s, "industrial") {
            ThemeKind::Industrial
        } else if ci_eq(s, "candy") {
            ThemeKind::Candy
        } else if ci_eq(s, "terminal") {
            ThemeKind::Terminal
        } else {
            ThemeKind::Fl
        }
    }

    /// The configuration key the theme is saved under.
    pub fn as_key(self) -> (r: &'static str)
        ensures
            self is Fl ==> r@ == "fl"@,
            self is Light ==> r@ == "light"@,
            self is Midnight ==> r@ == "midnight"@,
            self is Sunset ==> r@ == "sunset"@,
            self is Neon ==> r@ == "neon"@,
            self is Forest ==> r@ == "forest"@,
            self is Ocean ==> r@ == "ocean"@,
            self is Vapor ==> r@ == "vapor"@,
            self is Mono ==> r@ == "mono"@,
            self is Pastel ==> r@ == "pastel"@,
            self is SolarizedDark ==> r@ == "solarized_dark"@,
            self is SolarizedLight ==> r@ == "solarized_light"@,
            self is Industrial ==> r@ == "industrial"@,
            self is Candy ==> r@ == "candy"@,
            self is Terminal ==> r@ == "terminal"@,
    {
        match self {
            ThemeKind::Fl => "fl",
            ThemeKind::Light => "light",
            ThemeKind::Midnight => "midnight",
            ThemeKind::Sunset => "sunset",
            ThemeKind::Neon => "neon",
            ThemeKind::Forest => "forest",
            ThemeKind::Ocean => "ocean",
            ThemeKind::Vapor => "vapor",
            ThemeKind::Mono => "mono",
            ThemeKind::Pastel => "pastel",
            ThemeKind::SolarizedDark => "solarized_dark",
            ThemeKind::SolarizedLight => "solarized_light",
            ThemeKind::Industrial => "industrial",
            ThemeKind::Candy => "candy",
            ThemeKind::Terminal => "terminal",
        }
    }
}

/// The theme a configuration value names (see `ThemeKind::from_str`).
pub open spec fn theme_from_str_sp(s: Seq<char>) -> ThemeKind {
    if ci_eq_sp(s, "light"@) {
        ThemeKind::Light
    } else if ci_eq_sp(s, "midnight"@) {
        ThemeKind::Midnight
    } else if ci_eq_sp(s, "sunset"@) {
        ThemeKind::Sunset
    } else if ci_eq_sp(s, "neon"@) {
        ThemeKind::Neon
    } else if ci_eq_sp(s, "forest"@) {
        ThemeKind::Forest
    } else if ci_eq_sp(s, "ocean"@) {
        ThemeKind::Ocean
    } else if ci_eq_sp(s, "vapor"@) {
        ThemeKind::Vapor
    } else if ci_eq_sp(s, "mono"@) {
        ThemeKind::Mono
    } else if ci_eq_sp(s, "pastel"@) {
        ThemeKind::Pastel
    } else if ci_eq_sp(s, "solarized_dark"@) || ci_eq_sp(s, "solarized-dark"@) {
        ThemeKind::SolarizedDark
    } else if ci_eq_sp(s, "solarized_light"@) || ci_eq_sp(s, "solarized-light"@) {
        ThemeKind::SolarizedLight
    } else if ci_eq_sp(s, "industrial"@) {
        ThemeKind::Industrial
    } else if ci_eq_sp(s, "candy"@) {
        ThemeKind::Candy
    } else if ci_eq_sp(s, "terminal"@) {
        ThemeKind::Terminal
    } else {
        ThemeKind::Fl
    }
}

impl LayoutMode {
    /// Display name of the layout.
    pub fn label(self) -> (r: &'static str)
        ensures
            self is Stacked ==> r@ == "Stacked"@,
            self is TwoColumn ==> r@ == "Two columns"@,
            self is ThreeColumn ==> r@ == "Three columns"@,
    {
        match self {
            LayoutMode::Stacked => "Stacked",
            LayoutMode::TwoColumn => "Two columns",
            LayoutMode::ThreeColumn => "Three columns",
        }
    }

    /// Parse a layout from its configuration key, ignoring ASCII case;
    /// anything unknown falls back to three columns.
    pub fn from_str(s: &str) -> (r: LayoutMode)
        ensures
            r == layout_from_str_sp(s@),
    {
        if ci_eq(s, "stacked") {
            LayoutMode::Stacked
        } else if ci_eq(s, "two_column") || ci_eq(s, "two-column") {
            LayoutMode::TwoColumn
        } else {
            LayoutMode::ThreeColumn
        }
    }

    /// The configuration key the layout is saved under.
    pub fn as_key(self) -> (r: &'static str)
        ensures
            self is Stacked ==> r@ == "stacked"@,
            self is TwoColumn ==> r@ == "two_column"@,
            self is ThreeColumn ==> r@ == "three_column"@,
    {
        match self {
            LayoutMode::Stacked => "stacked",
            LayoutMode::TwoColumn => "two_column",
            LayoutMode::ThreeColumn => "three_column",
        }
    }
}

/// The layout a configuration value names (see `LayoutMode::from_str`).
pub open spec fn layout_from_str_sp(s: Seq<char>) -> LayoutMode {
    if ci_eq_sp(s, "stacked"@) {
        LayoutMode::Stacked
    } else if ci_eq_sp(s, "two_column"@) || ci_eq_sp(s, "two-column"@) {
        LayoutMode::TwoColumn
    } else {
        LayoutMode::ThreeColumn
    }
}

impl KeybindScheme {
    /// Display name of the key-binding scheme.
    pub fn label(self) -> (r: &'static str)
        ensures
            self is Default ==> r@ == "Default"@,
            self is Vim ==> r@ == "Vim"@,
            self is Emacs ==> r@ == "Emacs"@,
            self is Sublime ==> r@ == "Sublime"@,
            self is VSCode ==> r@ == "VS Code"@,
    {
        match self {
            KeybindScheme::Default => "Default",
            KeybindScheme::Vim => "Vim",
            KeybindScheme::Emacs => "Emacs",
            KeybindScheme::Sublime => "Sublime",
            KeybindScheme::VSCode => "VS Code",
        }
    }

    /// Parse a scheme from its configuration key, ignoring ASCII case;
    /// anything unknown falls back to the default scheme.
    pub fn from_str(s: &str) -> (r: KeybindScheme)
        ensures
            r == keybind_from_str_sp(s@),
    {
        if ci_eq(s, "vim") {
            KeybindScheme::Vim
        } else if ci_eq(s, "emacs") {
            KeybindScheme::Emacs
        } else if ci_eq(s, "sublime") {
            KeybindScheme::Sublime
        } else if ci_eq(s, "vscode") || ci_eq(s, "vs code") || ci_eq(s, "vs_code") {
            KeybindScheme::VSCode
        } else {
            KeybindScheme::Default
        }
    }

    /// The configuration key the scheme is saved under.
    pub fn as_key(self) -> (r: &'static str)
        ensures
            self is Default ==> r@ == "default"@,
            self is Vim ==> r@ == "vim"@,
            self is Emacs ==> r@ == "emacs"@,
            self is Sublime ==> r@ == "sublime"@,
            self is VSCode ==> r@ == "vscode"@,
    {
        match self {
            KeybindScheme::Default => "default",
            KeybindScheme::Vim => "vim",
            KeybindScheme::Emacs => "emacs",
            KeybindScheme::Sublime => "sublime",
            KeybindScheme::VSCode => "vscode",
        }
    }
}

/// The scheme a configuration value names (see `KeybindScheme::from_str`).
pub open spec fn keybind_from_str_sp(s: Seq<char>) -> KeybindScheme {
    if ci_eq_sp(s, "vim"@) {
        KeybindScheme::Vim
    } else if ci_eq_sp(s, "emacs"@) {
        KeybindScheme::Emacs
    } else if ci_eq_sp(s, "sublime"@) {
        KeybindScheme::Sublime
    } else if ci_eq_sp(s, "vscode"@) || ci_eq_sp(s, "vs code"@) || ci_eq_sp(s, "vs_code"@) {
        KeybindScheme::VSCode
    } else {
        KeybindScheme::Default
    }
}

/// The waveform a configuration value names, if any (ASCII case ignored).
pub open spec fn waveform_from_str_sp(s: Seq<char>) -> Option<Waveform> {
    if ci_eq_sp(s, "sine"@) {
        Some(Waveform::Sine)
    } else if ci_eq_sp(s, "square"@) {
        Some(Waveform::Square)
    } else if ci_eq_sp(s, "saw"@) || ci_eq_sp(s, "sawtooth"@) {
        Some(Waveform::Saw)
    } else if ci_eq_sp(s, "triangle"@) {
        Some(Waveform::Triangle)
    } else {
        None
    }
}

/// Parse a waveform from its configuration value, ignoring ASCII case.
pub fn parse_waveform(value: &str) -> (r: Option<Waveform>)
    ensures
        r == waveform_from_str_sp(value@),
{
    if ci_eq(value, "sine") {
        Some(Waveform::Sine)
    } else if ci_eq(value, "square") {
        Some(Waveform::Square)
    } else if ci_eq(value, "saw") || ci_eq(value, "sawtooth") {
        Some(Waveform::Saw)
    } else if ci_eq(value, "triangle") {
        Some(Waveform::Triangle)
    } else {
        None
    }
}

/// An ASCII decimal digit.
pub open spec fn is_digit_sp(c: char) -> bool {
    48 <= c as u32 <= 57
}

/// Every character is an ASCII decimal digit.
pub open spec fn all_digits_sp(s: Seq<char>) -> bool {
    forall|i: int| 0 <= i < s.len() ==> is_digit_sp(#[trigger] s[i])
}

/// The number a digit string denotes, most significant digit first.
pub open spec fn digits_val_sp(s: Seq<char>) -> int
    decreases s.len(),
{
    if s.len() == 0 {
        0
    } else {
        digits_val_sp(s.drop_last()) * 10 + (s.last() as u32 - 48)
    }
}

/// Ten to the `k`.
pub open spec fn pow10_sp(k: nat) -> int
    decreases k,
{
    if k == 0 {
        1
    } else {
        10 * pow10_sp((k - 1) as nat)
    }
}

/// The index of the first `.` in `s` at or after `i`, or -1 if none.
pub open spec fn dot_pos_sp(s: Seq<char>, i: int) -> int
    recommends
        0 <= i <= s.len(),
    decreases s.len() - i,
{
    if i < 0 || i >= s.len() {
        -1
    } else if s[i] == '.' {
        i
    } else {
        dot_pos_sp(s, i + 1)
    }
}

/// Where `dot_pos_sp` lands: either -1 with no point at or after `i`, or
/// the first point's index.
proof fn lemma_dot_pos_props(s: Seq<char>, i: int)
    requires
        0 <= i <= s.len(),
    ensures
        dot_pos_sp(s, i) == -1 ==> forall|j: int| i <= j < s.len() ==> s[j] != '.',
        dot_pos_sp(s, i) != -1 ==> i <= dot_pos_sp(s, i) < s.len() && s[dot_pos_sp(s, i)] == '.',
    decreases s.len() - i,
{
    if i < s.len() && s[i] != '.' {
        lemma_dot_pos_props(s, i + 1);
    }
}

/// The numeric text with an optional leading minus sign removed.
pub open spec fn num_body_sp(s: Seq<char>) -> Seq<char> {
    if s.len() > 0 && s[0] == '-' {
        s.skip(1)
    } else {
        s
    }
}

/// Whether the numeric text carries a leading minus sign.
pub open spec fn num_neg_sp(s: Seq<char>) -> bool {
    s.len() > 0 && s[0] == '-'
}

/// A parseable fixed-point number: an optional minus sign, at most
/// twelve integer digits, optionally a point and further digits, and at
/// least one digit in all.
pub open spec fn valid_fixed_sp(s: Seq<char>) -> bool {
    let b = num_body_sp(s);
    let d = dot_pos_sp(b, 0);
    if d == -1 {
        b.len() > 0 && b.len() <= 12 && all_digits_sp(b)
    } else {
        b.len() > 1 && d <= 12 && all_digits_sp(b.take(d)) && all_digits_sp(b.skip(d + 1))
    }
}

/// The Q20 value a parseable number denotes. Fractional digits beyond
/// the ninth cannot move a Q20 value and are ignored.
pub open spec fn fixed_value_sp(s: Seq<char>) -> int {
    let b = num_body_sp(s);
    let d = dot_pos_sp(b, 0);
    let v = if d == -1 {
        digits_val_sp(b) * FP_ONE as int
    } else {
        let frac = b.skip(d + 1);
        let kept = frac.take(if frac.len() <= 9 {
            frac.len() as int
        } else {
            9
        });
        digits_val_sp(b.take(d)) * FP_ONE as int + div_trunc(
            digits_val_sp(kept) * FP_ONE as int,
            pow10_sp(kept.len()),
        )
    };
    if num_neg_sp(s) {
        -v
    } else {
        v
    }
}

/// A digit string's value is nonnegative and below ten to its length.
proof fn lemma_digits_val_bound(s: Seq<char>)
    requires
        all_digits_sp(s),
    ensures
        0 <= digits_val_sp(s) < pow10_sp(s.len()),
    decreases s.len(),
{
    if s.len() == 0 {
    } else {
        assert(all_digits_sp(s.drop_last()));
        lemma_digits_val_bound(s.drop_last());
        let p = pow10_sp(s.drop_last().len());
        assert(pow10_sp(s.len()) == 10 * p);
        assert(digits_val_sp(s.drop_last()) * 10 <= (p - 1) * 10) by (nonlinear_arith)
            requires
                digits_val_sp(s.drop_last()) <= p - 1,
        ;
        assert(0 <= digits_val_sp(s.drop_last()) * 10) by (nonlinear_arith)
            requires
                0 <= digits_val_sp(s.drop_last()),
        ;
        assert(is_digit_sp(s.last()));
    }
}

/// Ten to the twelfth and below, as plain numbers.
proof fn lemma_pow10_values()
    ensures
        pow10_sp(0) == 1,
        pow10_sp(1) == 10,
        pow10_sp(2) == 100,
        pow10_sp(3) == 1000,
        pow10_sp(4) == 10000,
        pow10_sp(5) == 100000,
        pow10_sp(6) == 1000000,
        pow10_sp(7) == 10000000,
        pow10_sp(8) == 100000000,
        pow10_sp(9) == 1000000000,
        pow10_sp(10) == 10000000000,
        pow10_sp(11) == 100000000000,
        pow10_sp(12) == 1000000000000,
{
    assert(pow10_sp(0) == 1);
    assert(pow10_sp(1) == 10);
    assert(pow10_sp(2) == 100);
    assert(pow10_sp(3) == 1000);
    assert(pow10_sp(4) == 10000);
    assert(pow10_sp(5) == 100000);
    assert(pow10_sp(6) == 1000000);
    assert(pow10_sp(7) == 10000000);
    assert(pow10_sp(8) == 100000000);
    assert(pow10_sp(9) == 1000000000);
    assert(pow10_sp(10) == 10000000000);
    assert(pow10_sp(11) == 100000000000);
    assert(pow10_sp(12) == 1000000000000);
}

/// Parse a decimal number into Q20 fixed point (see `valid_fixed_sp` and
/// `fixed_value_sp`): `Some` exactly on parseable text.
pub fn parse_fixed(s: &str) -> (r: Option<i64>)
    ensures
        r is Some <==> valid_fixed_sp(s@),
        r is Some ==> r.unwrap() as int == fixed_value_sp(s@),
{
    let n = s.unicode_len();
    if n == 0 {
        return None;
    }
    let neg = s.get_char(0) == '-';
    let start: usize = if neg {
        1
    } else {
        0
    };
    let b = s.substring_char(start, n);
    proof {
        assert(b@ =~= num_body_sp(s@));
    }
    let bn = b.unicode_len();
    if bn == 0 {
        return None;
    }
    // Locate the first decimal point.
    let mut d: usize = 0;
    while d < bn && b.get_char(d) != '.'
        invariant
            d <= bn == b@.len(),
            forall|j: int| 0 <= j < d ==> b@[j] != '.',
            dot_pos_sp(b@, 0) == dot_pos_sp(b@, d as int),
        decreases bn - d,
    {
        d = d + 1;
    }
    let ghost dp = dot_pos_sp(b@, 0);
    proof {
        if d < bn {
            assert(dp == d as int);
        } else {
            assert(dp == -1);
        }
    }
    if d > 12 {
        return None;
    }
    if d < bn && bn == 1 {
        // Just a point, no digits at all.
        return None;
    }
    // Integer part.
    let ghost ipart = if dp == -1 {
        b@
    } else {
        b@.take(dp)
    };
    let mut iv: i64 = 0;
    let mut i: usize = 0;
    proof {
        lemma_pow10_values();
    }
    while i < d
        invariant
            i <= d <= bn == b@.len(),
            d <= 12,
            b@ == num_body_sp(s@),
            dp == dot_pos_sp(b@, 0),
            d < bn ==> dp == d as int,
            d >= bn ==> dp == -1,
            forall|j: int| 0 <= j < i ==> is_digit_sp(#[trigger] b@[j]),
            iv as int == digits_val_sp(b@.take(i as int)),
            0 <= iv as int && (iv as int) < pow10_sp(i as nat),
            pow10_sp(12) == 1000000000000,
        decreases d - i,
    {
        let c = b.get_char(i);
        if !(48 <= c as u32 && c as u32 <= 57) {
            proof {
                lemma_invalid_digit(s@, b@, dp, i as int);
            }
            return None;
        }
        proof {
            assert(b@.take(i as int + 1).drop_last() =~= b@.take(i as int));
            lemma_pow10_values();
            lemma_pow10_step(i as nat);
            assert(iv as int * 10 + 9 < pow10_sp(i as nat) * 10) by (nonlinear_arith)
                requires
                    (iv as int) < pow10_sp(i as nat),
                    0 <= iv as int,
            ;
            assert(0 <= iv as int * 10) by (nonlinear_arith)
                requires
                    0 <= iv as int,
            ;
            lemma_pow10_le_12(i as nat + 1);
        }
        iv = iv * 10 + ((c as u32 - 48) as i64);
        i = i + 1;
    }
    proof {
        if dp == -1 {
            assert(b@.take(d as int) =~= b@);
        }
        assert(iv as int == digits_val_sp(ipart));
    }
    // Fractional part: only the first nine digits can move a Q20 value.
    let mut fv: i64 = 0;
    let mut p10: i64 = 1;
    let mut fcount: usize = 0;
    if d < bn {
        let ghost frac = b@.skip(d as int + 1);
        let mut j: usize = d + 1;
        proof {
            lemma_pow10_values();
        }
        while j < bn
            invariant
                d as int + 1 <= j as int <= bn == b@.len(),
                frac == b@.skip(d as int + 1),
                forall|t: int| d as int + 1 <= t < j ==> is_digit_sp(#[trigger] b@[t]),
                fcount as int == if j as int - d - 1 <= 9 {
                    j as int - d - 1
                } else {
                    9
                },
                fv as int == digits_val_sp(frac.take(fcount as int)),
                0 <= fv as int && (fv as int) < pow10_sp(fcount as nat),
                p10 as int == pow10_sp(fcount as nat),
                1 <= p10 <= 1000000000,
                b@ == num_body_sp(s@),
                dot_pos_sp(b@, 0) == d as int,
                d <= 12,
            decreases bn - j,
        {
            let c = b.get_char(j);
            if !(48 <= c as u32 && c as u32 <= 57) {
                proof {
                    lemma_invalid_frac_digit(s@, b@, d as int, j as int);
                }
                return None;
            }
            if fcount < 9 {
                proof {
                    assert(frac.take(fcount as int + 1).drop_last() =~= frac.take(fcount as int));
                    assert(frac.take(fcount as int + 1).last() == b@[j as int]);
                    lemma_pow10_values();
                    lemma_pow10_step(fcount as nat);
                    assert(fv as int * 10 + 9 < pow10_sp(fcount as nat) * 10) by (nonlinear_arith)
                        requires
                            (fv as int) < pow10_sp(fcount as nat),
                            0 <= fv as int,
                    ;
                    assert(0 <= fv as int * 10) by (nonlinear_arith)
                        requires
                            0 <= fv as int,
                    ;
                }
                fv = fv * 10 + ((c as u32 - 48) as i64);
                p10 = p10 * 10;
                fcount = fcount + 1;
            }
            j = j + 1;
        }
    }
    // Assemble the Q20 value.
    proof {
        lemma_pow10_values();
        assert(0 <= fv as int * FP_ONE as int <= 1048575999451136) by (nonlinear_arith)
            requires
                0 <= fv as int <= 999999999,
                FP_ONE == 1048576,
        ;
    }
    let fq = div_fp(fv * FP_ONE, p10);
    proof {
        vstd::arithmetic::div_mod::lemma_div_is_ordered(
            fv as int * FP_ONE as int,
            p10 as int * FP_ONE as int,
            p10 as int,
        );
        crate::fixed::lemma_div_exact(FP_ONE as int, p10 as int);
        assert(p10 as int * FP_ONE as int == FP_ONE as int * p10 as int) by (nonlinear_arith);
        assert(fq as int <= FP_ONE as int);
        assert(0 <= iv as int * FP_ONE as int <= 1048575999999999951616) by (nonlinear_arith)
            requires
                0 <= iv as int <= 999999999999,
                FP_ONE == 1048576,
        ;
    }
    let v = iv * FP_ONE + fq;
    proof {
        if d < bn {
            let frac = b@.skip(d as int + 1);
            let kept = frac.take(
                if frac.len() <= 9 {
                    frac.len() as int
                } else {
                    9
                },
            );
            assert(kept =~= frac.take(fcount as int));
        }
    }
    if neg {
        Some(-v)
    } else {
        Some(v)
    }
}

/// A non-digit inside the integer part makes the whole text unparseable.
proof fn lemma_invalid_digit(s: Seq<char>, b: Seq<char>, dp: int, i: int)
    requires
        b == num_body_sp(s),
        dp == dot_pos_sp(b, 0),
        0 <= i < b.len(),
        !is_digit_sp(b[i]),
        dp == -1 || i < dp,
    ensures
        !valid_fixed_sp(s),
{
    lemma_dot_pos_props(b, 0);
    if dp != -1 {
        assert(b.take(dp)[i] == b[i]);
    }
}

/// A non-digit after the point makes the whole text unparseable.
proof fn lemma_invalid_frac_digit(s: Seq<char>, b: Seq<char>, d: int, j: int)
    requires
        b == num_body_sp(s),
        dot_pos_sp(b, 0) == d,
        0 <= d < j < b.len(),
        !is_digit_sp(b[j]),
    ensures
        !valid_fixed_sp(s),
{
    lemma_dot_pos_props(b, 0);
    assert(b.skip(d + 1)[j - d - 1] == b[j]);
}

/// One more power of ten.
proof fn lemma_pow10_step(k: nat)
    ensures
        pow10_sp(k + 1) == 10 * pow10_sp(k),
{
}

/// Powers of ten up to the twelfth stay below ten to the twelfth.
proof fn lemma_pow10_le_12(k: nat)
    requires
        k <= 12,
    ensures
        pow10_sp(k) <= 1000000000000,
    decreases 12 - k,
{
    lemma_pow10_values();
    if k < 12 {
        lemma_pow10_le_12(k + 1);
        lemma_pow10_step(k);
        assert(pow10_sp(k) >= 1) by {
            lemma_pow10_pos(k);
        }
    }
}

/// Powers of ten are positive.
proof fn lemma_pow10_pos(k: nat)
    ensures
        pow10_sp(k) >= 1,
    decreases k,
{
    if k > 0 {
        lemma_pow10_pos((k - 1) as nat);
    }
}

/// The configuration value a waveform is saved as.
pub fn waveform_key(waveform: Waveform) -> (r: &'static str)
    ensures
        waveform is Sine ==> r@ == "sine"@,
        waveform is Square ==> r@ == "square"@,
        waveform is Saw ==> r@ == "saw"@,
        waveform is Triangle ==> r@ == "triangle"@,
{
    match waveform {
        Waveform::Sine => "sine",
        Waveform::Square => "square",
        Waveform::Saw => "saw",
        Waveform::Triangle => "triangle",
    }
}

/// All persisted application state: the look of the window, the synth
/// parameters and the preferred output device. Numeric fields are Q20.
pub struct AppSettings {
    pub theme: ThemeKind,
    pub params: SynthParams,
    pub output_device: Option<String>,
    pub layout_mode: LayoutMode,
    pub card_padding: i64,
    pub card_rounding: i64,
    pub scope_height: i64,
    pub keyboard_scale: i64,
    pub keybinds: KeybindScheme,
}

impl Default for AppSettings {
    /// Factory settings: dark theme, three columns, factory patch.
    fn default() -> (r: Self)
        ensures
            r.theme is Fl,
            r.params == crate::params::default_params_sp(),
            r.output_device is None,
            r.layout_mode is ThreeColumn,
            r.card_padding == 12582912,  // 12.0
            r.card_rounding == 8388608,  // 8.0
            r.scope_height == 146800640,  // 140.0
            r.keyboard_scale == FP_ONE,
            r.keybinds is Default,
    {
        AppSettings {
            theme: ThemeKind::Fl,
            params: Default::default(),
            output_device: None,
            layout_mode: LayoutMode::ThreeColumn,
            card_padding: 12582912,
            card_rounding: 8388608,
            scope_height: 146800640,
            keyboard_scale: FP_ONE,
            keybinds: KeybindScheme::Default,
        }
    }
}

/// The numeric value a configuration text sets, or the old value where
/// the text does not parse.
pub open spec fn parsed_or_sp(s: Seq<char>, old: i64) -> i64 {
    if valid_fixed_sp(s) {
        fixed_value_sp(s) as i64
    } else {
        old
    }
}

/// What one `key=value` line does to the settings; the output device key
/// is handled separately by `apply_kv` since its value is the raw text.
pub open spec fn apply_kv_sp(key: Seq<char>, value: Seq<char>, a: AppSettings) -> AppSettings {
    if key == "theme"@ {
        AppSettings { theme: theme_from_str_sp(value), ..a }
    } else if key == "layout_mode"@ {
        AppSettings { layout_mode: layout_from_str_sp(value), ..a }
    } else if key == "card_padding"@ {
        AppSettings { card_padding: parsed_or_sp(value, a.card_padding), ..a }
    } else if key == "card_rounding"@ {
        AppSettings { card_rounding: parsed_or_sp(value, a.card_rounding), ..a }
    } else if key == "scope_height"@ {
        AppSettings { scope_height: parsed_or_sp(value, a.scope_height), ..a }
    } else if key == "keyboard_scale"@ {
        AppSettings { keyboard_scale: parsed_or_sp(value, a.keyboard_scale), ..a }
    } else if key == "keybinds"@ {
        AppSettings { keybinds: keybind_from_str_sp(value), ..a }
    } else if key == "gain"@ {
        AppSettings { params: SynthParams { gain: parsed_or_sp(value, a.params.gain), ..a.params }, ..a }
    } else if key == "attack_seconds"@ {
        AppSettings { params: SynthParams { attack_seconds: parsed_or_sp(value, a.params.attack_seconds), ..a.params }, ..a }
    } else if key == "decay_seconds"@ {
        AppSettings { params: SynthParams { decay_seconds: parsed_or_sp(value, a.params.decay_seconds), ..a.params }, ..a }
    } else if key == "sustain_level"@ {
        AppSettings { params: SynthParams { sustain_level: parsed_or_sp(value, a.params.sustain_level), ..a.params }, ..a }
    } else if key == "release_seconds"@ {
        AppSettings { params: SynthParams { release_seconds: parsed_or_sp(value, a.params.release_seconds), ..a.params }, ..a }
    } else if key == "waveform"@ {
        match waveform_from_str_sp(value) {
            Some(w) => AppSettings { params: SynthParams { waveform: w, ..a.params }, ..a },
            None => a,
        }
    } else if key == "filter_cutoff_hz"@ {
        AppSettings { params: SynthParams { filter_cutoff_hz: parsed_or_sp(value, a.params.filter_cutoff_hz), ..a.params }, ..a }
    } else if key == "filter_resonance"@ {
        AppSettings { params: SynthParams { filter_resonance: parsed_or_sp(value, a.params.filter_resonance), ..a.params }, ..a }
    } else if key == "vibrato_depth_semitones"@ {
        AppSettings { params: SynthParams { vibrato_depth_semitones: parsed_or_sp(value, a.params.vibrato_depth_semitones), ..a.params }, ..a }
    } else if key == "vibrato_rate_hz"@ {
        AppSettings { params: SynthParams { vibrato_rate_hz: parsed_or_sp(value, a.params.vibrato_rate_hz), ..a.params }, ..a }
    } else if key == "unison_spread_cents"@ {
        AppSettings { params: SynthParams { unison_spread_cents: parsed_or_sp(value, a.params.unison_spread_cents), ..a.params }, ..a }
    } else if key == "autotune_amount"@ {
        AppSettings { params: SynthParams { autotune_amount: parsed_or_sp(value, a.params.autotune_amount), ..a.params }, ..a }
    } else if key == "noise_mix"@ {
        AppSettings { params: SynthParams { noise_mix: parsed_or_sp(value, a.params.noise_mix), ..a.params }, ..a }
    } else if key == "eq_low_gain_db"@ {
        AppSettings { params: SynthParams { eq_low_gain_db: parsed_or_sp(value, a.params.eq_low_gain_db), ..a.params }, ..a }
    } else if key == "eq_low_freq_hz"@ {
        AppSettings { params: SynthParams { eq_low_freq_hz: parsed_or_sp(value, a.params.eq_low_freq_hz), ..a.params }, ..a }
    } else if key == "eq_mid_gain_db"@ {
        AppSettings { params: SynthParams { eq_mid_gain_db: parsed_or_sp(value, a.params.eq_mid_gain_db), ..a.params }, ..a }
    } else if key == "eq_mid_freq_hz"@ {
        AppSettings { params: SynthParams { eq_mid_freq_hz: parsed_or_sp(value, a.params.eq_mid_freq_hz), ..a.params }, ..a }
    } else if key == "eq_mid_q"@ {
        AppSettings { params: SynthParams { eq_mid_q: parsed_or_sp(value, a.params.eq_mid_q), ..a.params }, ..a }
    } else if key == "eq_high_gain_db"@ {
        AppSettings { params: SynthParams { eq_high_gain_db: parsed_or_sp(value, a.params.eq_high_gain_db), ..a.params }, ..a }
    } else if key == "eq_high_freq_hz"@ {
        AppSettings { params: SynthParams { eq_high_freq_hz: parsed_or_sp(value, a.params.eq_high_freq_hz), ..a.params }, ..a }
    } else {
        a
    }
}

/// ASCII whitespace, as it may surround keys and values in a settings
/// file.
pub open spec fn is_ws_sp(c: char) -> bool {
    c == ' ' || c == '\t' || c == '\r' || c == '\n'
}

/// The first index at or after `i` holding something other than
/// whitespace, or the length if there is none.
pub open spec fn lead_ws_sp(s: Seq<char>, i: int) -> int
    recommends
        0 <= i <= s.len(),
    decreases s.len() - i,
{
    if i < 0 || i >= s.len() {
        s.len() as int
    } else if is_ws_sp(s[i]) {
        lead_ws_sp(s, i + 1)
    } else {
        i
    }
}

/// The end of the text once trailing whitespace below `i` is dropped.
pub open spec fn tail_ws_sp(s: Seq<char>, i: int) -> int
    recommends
        0 <= i <= s.len(),
    decreases i,
{
    if i <= 0 {
        0
    } else if is_ws_sp(s[i - 1]) {
        tail_ws_sp(s, i - 1)
    } else {
        i
    }
}

/// The text with surrounding ASCII whitespace removed.
pub open spec fn trimmed_sp(s: Seq<char>) -> Seq<char> {
    let a = lead_ws_sp(s, 0);
    let b = tail_ws_sp(s, s.len() as int);
    if a <= b {
        s.subrange(a, b)
    } else {
        Seq::empty()
    }
}

/// The index of the first `c` in `s` at or after `i`, or -1 if none.
pub open spec fn char_pos_sp(s: Seq<char>, c: char, i: int) -> int
    recommends
        0 <= i <= s.len(),
    decreases s.len() - i,
{
    if i < 0 || i >= s.len() {
        -1
    } else if s[i] == c {
        i
    } else {
        char_pos_sp(s, c, i + 1)
    }
}

/// Whether a character is ASCII whitespace.
fn is_ws(c: char) -> (r: bool)
    ensures
        r == is_ws_sp(c),
{
    c == ' ' || c == '\t' || c == '\r' || c == '\n'
}

/// Strip surrounding ASCII whitespace.
fn trim_chars<'a>(s: &'a str) -> (r: &'a str)
    ensures
        r@ == trimmed_sp(s@),
{
    let n = s.unicode_len();
    let mut a: usize = 0;
    while a < n && is_ws(s.get_char(a))
        invariant
            a <= n == s@.len(),
            lead_ws_sp(s@, 0) == lead_ws_sp(s@, a as int),
        decreases n - a,
    {
        a = a + 1;
    }
    proof {
        assert(lead_ws_sp(s@, 0) == a as int);
    }
    let mut b: usize = n;
    while b > a && is_ws(s.get_char(b - 1))
        invariant
            a <= b <= n == s@.len(),
            lead_ws_sp(s@, 0) == a as int,
            tail_ws_sp(s@, n as int) == tail_ws_sp(s@, b as int),
        decreases b,
    {
        b = b - 1;
    }
    proof {
        if b > a {
            // The loop stopped on a non-whitespace character.
            assert(tail_ws_sp(s@, n as int) == b as int);
            assert(s@.subrange(a as int, b as int) == trimmed_sp(s@));
        } else {
            // Everything from `a` on trimmed away: both sides are empty.
            lemma_tail_ws_le(s@, a as int);
            assert(s@.subrange(a as int, a as int) =~= Seq::<char>::empty());
            if lead_ws_sp(s@, 0) <= tail_ws_sp(s@, n as int) {
                assert(tail_ws_sp(s@, n as int) == tail_ws_sp(s@, a as int));
                assert(trimmed_sp(s@) =~= Seq::<char>::empty());
            }
        }
    }
    s.substring_char(a, b)
}

/// Trailing-whitespace removal never moves the end upward.
proof fn lemma_tail_ws_le(s: Seq<char>, i: int)
    requires
        0 <= i <= s.len(),
    ensures
        0 <= tail_ws_sp(s, i) <= i,
    decreases i,
{
    if i > 0 && is_ws_sp(s[i - 1]) {
        lemma_tail_ws_le(s, i - 1);
    }
}

/// Set a Q20 field from a configuration value, leaving it unchanged when
/// the text does not parse.
fn set_fixed(value: &str, target: &mut i64)
    ensures
        *final(target) == parsed_or_sp(value@, *old(target)),
{
    match parse_fixed(value) {
        Some(v) => {
            *target = v;
        },
        None => {},
    }
}

/// Apply one `key=value` line of a settings file (see `apply_kv_sp`).
/// Unknown keys are ignored; unparseable numbers leave their field
/// untouched; the output device is stored as the raw text, or cleared by
/// an empty value.
pub fn apply_kv(key: &str, value: &str, settings: &mut AppSettings)
    ensures
        key@ != "output_device"@ ==> *final(settings) == apply_kv_sp(
            key@,
            value@,
            *old(settings),
        ),
        key@ == "output_device"@ ==> ({
            &&& final(settings).theme == old(settings).theme
            &&& final(settings).params == old(settings).params
            &&& final(settings).layout_mode == old(settings).layout_mode
            &&& final(settings).card_padding == old(settings).card_padding
            &&& final(settings).card_rounding == old(settings).card_rounding
            &&& final(settings).scope_height == old(settings).scope_height
            &&& final(settings).keyboard_scale == old(settings).keyboard_scale
            &&& final(settings).keybinds == old(settings).keybinds
            &&& (value@.len() == 0 ==> final(settings).output_device is None)
            &&& (value@.len() > 0 ==> final(settings).output_device is Some)
            &&& (value@.len() > 0 ==> final(settings).output_device.unwrap()@ == value@)
        }),
{
    proof {
        // Distinct literals are only known distinct once their contents
        // are visible.
        reveal_strlit("theme");
        reveal_strlit("output_device");
        assert("theme"@.len() == 5);
        assert("output_device"@.len() == 13);
        assert("theme"@ != "output_device"@);
    }
    if str_eq(key, "theme") {
        settings.theme = ThemeKind::from_str(value);
    } else if str_eq(key, "output_device") {
        if value.unicode_len() == 0 {
            settings.output_device = None;
        } else {
            settings.output_device = Some(value.to_owned());
        }
    } else if str_eq(key, "layout_mode") {
        settings.layout_mode = LayoutMode::from_str(value);
    } else if str_eq(key, "card_padding") {
        set_fixed(value, &mut settings.card_padding);
    } else if str_eq(key, "card_rounding") {
        set_fixed(value, &mut settings.card_rounding);
    } else if str_eq(key, "scope_height") {
        set_fixed(value, &mut settings.scope_height);
    } else if str_eq(key, "keyboard_scale") {
        set_fixed(value, &mut settings.keyboard_scale);
    } else if str_eq(key, "keybinds") {
        settings.keybinds = KeybindScheme::from_str(value);
    } else if str_eq(key, "gain") {
        set_fixed(value, &mut settings.params.gain);
    } else if str_eq(key, "attack_seconds") {
        set_fixed(value, &mut settings.params.attack_seconds);
    } else if str_eq(key, "decay_seconds") {
        set_fixed(value, &mut settings.params.decay_seconds);
    } else if str_eq(key, "sustain_level") {
        set_fixed(value, &mut settings.params.sustain_level);
    } else if str_eq(key, "release_seconds") {
        set_fixed(value, &mut settings.params.release_seconds);
    } else if str_eq(key, "waveform") {
        match parse_waveform(value) {
            Some(wf) => {
                settings.params.waveform = wf;
            },
            None => {},
        }
    } else if str_eq(key, "filter_cutoff_hz") {
        set_fixed(value, &mut settings.params.filter_cutoff_hz);
    } else if str_eq(key, "filter_resonance") {
        set_fixed(value, &mut settings.params.filter_resonance);
    } else if str_eq(key, "vibrato_depth_semitones") {
        set_fixed(value, &mut settings.params.vibrato_depth_semitones);
    } else if str_eq(key, "vibrato_rate_hz") {
        set_fixed(value, &mut settings.params.vibrato_rate_hz);
    } else if str_eq(key, "unison_spread_cents") {
        set_fixed(value, &mut settings.params.unison_spread_cents);
    } else if str_eq(key, "autotune_amount") {
        set_fixed(value, &mut settings.params.autotune_amount);
    } else if str_eq(key, "noise_mix") {
        set_fixed(value, &mut settings.params.noise_mix);
    } else if str_eq(key, "eq_low_gain_db") {
        set_fixed(value, &mut settings.params.eq_low_gain_db);
    } else if str_eq(key, "eq_low_freq_hz") {
        set_fixed(value, &mut settings.params.eq_low_freq_hz);
    } else if str_eq(key, "eq_mid_gain_db") {
        set_fixed(value, &mut settings.params.eq_mid_gain_db);
    } else if str_eq(key, "eq_mid_freq_hz") {
        set_fixed(value, &mut settings.params.eq_mid_freq_hz);
    } else if str_eq(key, "eq_mid_q") {
        set_fixed(value, &mut settings.params.eq_mid_q);
    } else if str_eq(key, "eq_high_gain_db") {
        set_fixed(value, &mut settings.params.eq_high_gain_db);
    } else if str_eq(key, "eq_high_freq_hz") {
        set_fixed(value, &mut settings.params.eq_high_freq_hz);
    }
}

/// Apply one raw line of a settings file: trim it, skip blank lines and
/// `#` comments and lines without `=`, and otherwise hand the trimmed key
/// and value to `apply_kv`.
pub fn apply_line(line: &str, settings: &mut AppSettings)
    ensures
        ({
            let t = trimmed_sp(line@);
            let e = char_pos_sp(t, '=', 0);
            &&& (t.len() == 0 || t[0] == '#' || e == -1) ==> *final(settings) == *old(settings)
            &&& (t.len() > 0 && t[0] != '#' && e >= 0) ==> ({
                let key = trimmed_sp(t.take(e));
                let value = trimmed_sp(t.skip(e + 1));
                &&& key != "output_device"@ ==> *final(settings) == apply_kv_sp(
                    key,
                    value,
                    *old(settings),
                )
                &&& key == "output_device"@ ==> ({
                    &&& final(settings).theme == old(settings).theme
                    &&& final(settings).params == old(settings).params
                    &&& final(settings).layout_mode == old(settings).layout_mode
                    &&& final(settings).card_padding == old(settings).card_padding
                    &&& final(settings).card_rounding == old(settings).card_rounding
                    &&& final(settings).scope_height == old(settings).scope_height
                    &&& final(settings).keyboard_scale == old(settings).keyboard_scale
                    &&& final(settings).keybinds == old(settings).keybinds
                    &&& (value.len() == 0 ==> final(settings).output_device is None)
                    &&& (value.len() > 0 ==> final(settings).output_device is Some)
                    &&& (value.len() > 0 ==> final(settings).output_device.unwrap()@ == value)
                })
            })
        }),
{
    let t = trim_chars(line);
    let tn = t.unicode_len();
    if tn == 0 {
        return ;
    }
    if t.get_char(0) == '#' {
        return ;
    }
    let mut e: usize = 0;
    while e < tn && t.get_char(e) != '='
        invariant
            e <= tn == t@.len(),
            char_pos_sp(t@, '=', 0) == char_pos_sp(t@, '=', e as int),
        decreases tn - e,
    {
        e = e + 1;
    }
    if e == tn {
        proof {
            assert(char_pos_sp(t@, '=', 0) == -1);
        }
        return ;
    }
    proof {
        assert(char_pos_sp(t@, '=', 0) == e as int);
    }
    let key_raw = t.substring_char(0, e);
    let value_raw = t.substring_char(e + 1, tn);
    proof {
        assert(key_raw@ =~= t@.take(e as int));
        assert(value_raw@ =~= t@.skip(e as int + 1));
    }
    let key = trim_chars(key_raw);
    let value = trim_chars(value_raw);
    apply_kv(key, value, settings);
}

} // verus!
