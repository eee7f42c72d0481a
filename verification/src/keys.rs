//! Piano-keyboard helpers: which notes are black keys, and the display
//! label of a note.

use vstd::prelude::*;
use vstd::string::StringExecFns;

verus! {

/// Whether a MIDI note is a black key on the piano keyboard.
pub fn is_black(note: u8) -> (r: bool)
    ensures
        r == (note as int % 12 == 1 || note as int % 12 == 3 || note as int % 12 == 6
            || note as int % 12 == 8 || note as int % 12 == 10),
{
    matches!(note % 12, 1 | 3 | 6 | 8 | 10)
}

/// The pitch-class name of a note.
pub open spec fn note_name_sp(k: int) -> Seq<char> {
    if k == 0 {
        "C"@
    } else if k == 1 {
        "C#"@
    } else if k == 2 {
        "D"@
    } else if k == 3 {
        "D#"@
    } else if k == 4 {
        "E"@
    } else if k == 5 {
        "F"@
    } else if k == 6 {
        "F#"@
    } else if k == 7 {
        "G"@
    } else if k == 8 {
        "G#"@
    } else if k == 9 {
        "A"@
    } else if k == 10 {
        "A#"@
    } else {
        "B"@
    }
}

/// The octave digit of a note: its octave number, not below zero.
pub open spec fn octave_digit_sp(o: int) -> Seq<char> {
    if o <= 0 {
        "0"@
    } else if o == 1 {
        "1"@
    } else if o == 2 {
        "2"@
    } else if o == 3 {
        "3"@
    } else if o == 4 {
        "4"@
    } else if o == 5 {
        "5"@
    } else if o == 6 {
        "6"@
    } else if o == 7 {
        "7"@
    } else if o == 8 {
        "8"@
    } else {
        "9"@
    }
}

/// The display label of a note: pitch-class name and octave digit, with
/// the octave counted from one octave below the lowest MIDI octave.
pub open spec fn note_label_sp(note: int) -> Seq<char> {
    note_name_sp(note % 12) + octave_digit_sp(note / 12 - 1)
}

/// The display label of a note, such as the middle octave's first key.
pub fn note_label(note: u8) -> (r: String)
    requires
        note < 128,
    ensures
        r@ == note_label_sp(note as int),
{
    let name: &'static str = match note % 12 {
        0 => "C",
        1 => "C#",
        2 => "D",
        3 => "D#",
        4 => "E",
        5 => "F",
        6 => "F#",
        7 => "G",
        8 => "G#",
        9 => "A",
        10 => "A#",
        _ => "B",
    };
    let o = note / 12;
    let digit: &'static str = if o <= 1 {
        "0"
    } else {
        match o - 1 {
            1 => "1",
            2 => "2",
            3 => "3",
            4 => "4",
            5 => "5",
            6 => "6",
            7 => "7",
            8 => "8",
            _ => "9",
        }
    };
    let mut out: String = name.to_owned();
    out.append(digit);
    out
}

} // verus!
