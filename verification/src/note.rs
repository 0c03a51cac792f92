//! A note: a pitch and the velocity it was played with.

use std::cmp::Ordering;
use vstd::prelude::*;
use vstd::std_specs::cmp::{PartialEqSpecImpl, PartialOrdSpecImpl};

verus! {

/// A MIDI note. Two notes are equal when they have the same pitch, whatever
/// their velocities; notes are ordered by pitch.
#[derive(Debug, Clone, Copy)]
pub struct Note {
    /// The pitch.
    pub note_number: usize,
    /// How hard the key was struck. Carried along; it takes no part in comparisons.
    pub velocity: usize,
}

impl PartialEq for Note {
    fn eq(&self, other: &Self) -> (r: bool) {
        self.note_number == other.note_number
    }
}

impl PartialEqSpecImpl for Note {
    open spec fn obeys_eq_spec() -> bool {
        true
    }

    open spec fn eq_spec(&self, other: &Self) -> bool {
        self.note_number == other.note_number
    }
}

impl PartialOrd for Note {
    fn partial_cmp(&self, other: &Self) -> (r: Option<Ordering>) {
        if self.note_number < other.note_number {
            Some(Ordering::Less)
        } else if self.note_number == other.note_number {
            Some(Ordering::Equal)
        } else {
            Some(Ordering::Greater)
        }
    }
}

impl PartialOrdSpecImpl for Note {
    open spec fn obeys_partial_cmp_spec() -> bool {
        true
    }

    open spec fn partial_cmp_spec(&self, other: &Self) -> Option<Ordering> {
        if self.note_number < other.note_number {
            Some(Ordering::Less)
        } else if self.note_number == other.note_number {
            Some(Ordering::Equal)
        } else {
            Some(Ordering::Greater)
        }
    }
}

/// The name of the pitch class `class`: one of the twelve steps of the octave.
pub open spec fn note_name(class: int) -> Seq<char> {
    if class == 0 {
        seq!['C']
    } else if class == 1 {
        seq!['C', '#']
    } else if class == 2 {
        seq!['D']
    } else if class == 3 {
        seq!['D', '#']
    } else if class == 4 {
        seq!['E']
    } else if class == 5 {
        seq!['F']
    } else if class == 6 {
        seq!['F', '#']
    } else if class == 7 {
        seq!['G']
    } else if class == 8 {
        seq!['G', '#']
    } else if class == 9 {
        seq!['A']
    } else if class == 10 {
        seq!['A', '#']
    } else {
        seq!['B']
    }
}

/// The character of the digit `d`.
pub open spec fn digit_char(d: int) -> char {
    if d == 0 {
        '0'
    } else if d == 1 {
        '1'
    } else if d == 2 {
        '2'
    } else if d == 3 {
        '3'
    } else if d == 4 {
        '4'
    } else if d == 5 {
        '5'
    } else if d == 6 {
        '6'
    } else if d == 7 {
        '7'
    } else if d == 8 {
        '8'
    } else {
        '9'
    }
}

/// `n` written in decimal digits, the highest first.
pub open spec fn decimal(n: nat) -> Seq<char>
    decreases n,
{
    if n < 10 {
        seq![digit_char(n as int)]
    } else {
        decimal(n / 10).push(digit_char((n % 10) as int))
    }
}

/// The text of the note with pitch `note_number`: the name of its pitch class
/// and the number of its octave, counted from 0.
pub open spec fn note_text(note_number: nat) -> Seq<char> {
    note_name((note_number % 12) as int) + decimal(note_number / 12)
}

/// The text of the digit `d`.
fn digit_str(d: usize) -> (s: &'static str)
    requires
        d < 10,
    ensures
        s@ == seq![digit_char(d as int)],
{
    proof {
        reveal_strlit("0");
        reveal_strlit("1");
        reveal_strlit("2");
        reveal_strlit("3");
        reveal_strlit("4");
        reveal_strlit("5");
        reveal_strlit("6");
        reveal_strlit("7");
        reveal_strlit("8");
        reveal_strlit("9");
    }
    let s = if d == 0 {
        "0"
    } else if d == 1 {
        "1"
    } else if d == 2 {
        "2"
    } else if d == 3 {
        "3"
    } else if d == 4 {
        "4"
    } else if d == 5 {
        "5"
    } else if d == 6 {
        "6"
    } else if d == 7 {
        "7"
    } else if d == 8 {
        "8"
    } else {
        "9"
    };
    assert(s@ =~= seq![digit_char(d as int)]);
    s
}

/// Writes `n` in decimal digits behind what `s` holds.
fn push_decimal(s: &mut String, n: usize)
    ensures
        final(s)@ == old(s)@ + decimal(n as nat),
    decreases n,
{
    if n >= 10 {
        push_decimal(s, n / 10);
    }
    s.append(digit_str(n % 10));
    assert(s@ =~= old(s)@ + decimal(n as nat));
}

/// The name of a note, such as `A5` for the pitch 69.
pub fn to_string(note: &Note) -> (s: String)
    ensures
        s@ == note_text(note.note_number as nat),
{
    proof {
        reveal_strlit("C");
        reveal_strlit("C#");
        reveal_strlit("D");
        reveal_strlit("D#");
        reveal_strlit("E");
        reveal_strlit("F");
        reveal_strlit("F#");
        reveal_strlit("G");
        reveal_strlit("G#");
        reveal_strlit("A");
        reveal_strlit("A#");
        reveal_strlit("B");
    }
    let note_class = note.note_number % 12;
    let name = if note_class == 0 {
        "C"
    } else if note_class == 1 {
        "C#"
    } else if note_class == 2 {
        "D"
    } else if note_class == 3 {
        "D#"
    } else if note_class == 4 {
        "E"
    } else if note_class == 5 {
        "F"
    } else if note_class == 6 {
        "F#"
    } else if note_class == 7 {
        "G"
    } else if note_class == 8 {
        "G#"
    } else if note_class == 9 {
        "A"
    } else if note_class == 10 {
        "A#"
    } else {
        "B"
    };
    assert(name@ =~= note_name(note_class as int));
    let mut s = String::from_str(name);
    push_decimal(&mut s, note.note_number / 12);
    s
}

} // verus!
