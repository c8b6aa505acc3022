//! MIDI note numbers and their names.
//!
//! A note is named by one of twelve names and an octave. Octave numbers start
//! at -2: note 0 is `C-2`, middle C (note 60) is `C3`, and note 127 is `G8`.

use crate::error::Error;
use crate::text::{
    chars_of, is_digit, lemma_signed_decimal_round_trip, push_signed, signed_decimal, signed_from,
    signed_value, unsigned_from, unsigned_value,
};
use core::cmp::Ordering;
use vstd::prelude::*;

verus! {

/// How many octaves lie below octave 0: note 0 is the C of octave `-OCTAVE_OFFSET`.
pub const OCTAVE_OFFSET: u8 = 2;

/// A MIDI note number.
#[derive(Copy, Clone, Debug, PartialEq, Eq, Structural, Ord, Hash)]
pub struct Note(pub u8);

/// The letter of the `index`-th of the twelve note names.
pub open spec fn name_letter(index: int) -> char {
    if index < 2 {
        'C'
    } else if index < 4 {
        'D'
    } else if index < 5 {
        'E'
    } else if index < 7 {
        'F'
    } else if index < 9 {
        'G'
    } else if index < 11 {
        'A'
    } else {
        'B'
    }
}

/// Whether the `index`-th of the twelve note names ends in `#`.
pub open spec fn name_is_sharp(index: int) -> bool {
    index == 1 || index == 3 || index == 6 || index == 8 || index == 10
}

/// The `index`-th of the names C, C#, D, D#, E, F, F#, G, G#, A, A#, B.
pub open spec fn note_name(index: int) -> Seq<char> {
    if name_is_sharp(index) {
        seq![name_letter(index), '#']
    } else {
        seq![name_letter(index)]
    }
}

/// The place among the twelve note names of the one written with `letter`,
/// sharp or not: there is no E# and no B#.
pub open spec fn name_index(letter: char, sharp: bool) -> Option<int> {
    if letter == 'C' {
        Some(if sharp { 1int } else { 0int })
    } else if letter == 'D' {
        Some(if sharp { 3int } else { 2int })
    } else if letter == 'E' && !sharp {
        Some(4int)
    } else if letter == 'F' {
        Some(if sharp { 6int } else { 5int })
    } else if letter == 'G' {
        Some(if sharp { 8int } else { 7int })
    } else if letter == 'A' {
        Some(if sharp { 10int } else { 9int })
    } else if letter == 'B' && !sharp {
        Some(11int)
    } else {
        None
    }
}

/// The name of note `value`: its note name, then its octave.
pub open spec fn display_name(value: u8) -> Seq<char> {
    note_name(value as int % 12) + signed_decimal(value as int / 12 - OCTAVE_OFFSET)
}

/// The number that a note name with an octave stands for: a letter, an
/// optional `#`, and a decimal octave with an optional sign.
pub open spec fn named_value(s: Seq<char>) -> Option<int> {
    if s.len() == 0 {
        None
    } else {
        let sharp = s.len() > 1 && s[1] == '#';
        let octave = signed_value(
            s.skip(
                if sharp {
                    2
                } else {
                    1
                },
            ),
        );
        match (name_index(s[0], sharp), octave) {
            (Some(index), Some(octave)) => Some((octave + OCTAVE_OFFSET) * 12 + index),
            _ => None,
        }
    }
}

/// The note that a text stands for: an unsigned decimal note number, or a note
/// name with an octave. `None` where the text is neither, or the number does
/// not fit in a byte.
pub open spec fn parse_note(s: Seq<char>) -> Option<u8> {
    let number = match unsigned_value(s) {
        Some(n) => Some(n as int),
        None => named_value(s),
    };
    match number {
        Some(n) => if 0 <= n <= 255 {
            Some(n as u8)
        } else {
            None
        },
        None => None,
    }
}

/// Parsing the name of a note gives the note.
pub proof fn lemma_parse_display_name(value: u8)
    ensures
        parse_note(display_name(value)) == Some(value),
{
    let index = value as int % 12;
    let octave = value as int / 12 - OCTAVE_OFFSET;
    let name = note_name(index);
    let s = display_name(value);
    lemma_signed_decimal_round_trip(octave);
    assert(s[0] == name_letter(index));
    assert(!is_digit(s[0]));
    assert(unsigned_value(s) is None);
    if name_is_sharp(index) {
        assert(s[1] == '#');
        assert(s.skip(2) =~= signed_decimal(octave));
    } else {
        assert(s[1] == signed_decimal(octave)[0]);
        assert(s.skip(1) =~= signed_decimal(octave));
    }
    assert(name_index(s[0], name_is_sharp(index)) == Some(index));
    assert(named_value(s) == Some(value as int));
}

impl Note {
    /// Reads a note from characters: see `parse_note`.
    pub fn from_chars(text: &Vec<char>) -> (r: Option<Note>)
        ensures
            r == match parse_note(text@) {
                Some(value) => Some(Note(value)),
                None => None,
            },
    {
        assert(text@.skip(0) =~= text@);
        let number: i32 = match unsigned_from(text, 0) {
            Some(n) => n as i32,
            None => {
                if text.len() == 0 {
                    return None;
                }
                let sharp = text.len() > 1 && text[1] == '#';
                let start: usize = if sharp {
                    2
                } else {
                    1
                };
                match (index_of_name(text[0], sharp), signed_from(text, start)) {
                    (Some(index), Some(octave)) => (octave + OCTAVE_OFFSET as i32) * 12
                        + index as i32,
                    _ => {
                        return None;
                    },
                }
            },
        };
        if 0 <= number && number <= 255 {
            Some(Note(number as u8))
        } else {
            None
        }
    }

    /// Reads a note from a note number (`60`) or from a note name with an
    /// octave (`C3`, `F#-1`).
    pub fn from_str(s: &str) -> (r: Result<Note, Error>)
        ensures
            r == match parse_note(s@) {
                Some(value) => Ok::<Note, Error>(Note(value)),
                None => Err(Error::InvalidNote),
            },
    {
        let text = chars_of(s);
        match Note::from_chars(&text) {
            Some(note) => Ok(note),
            None => Err(Error::InvalidNote),
        }
    }

    /// Appends the name of the note to `out`.
    pub fn write_name(&self, out: &mut String)
        ensures
            final(out)@ == old(out)@ + display_name(self.0),
    {
        let index: u8 = self.0 % 12;
        out.push(letter_of_name(index));
        if index == 1 || index == 3 || index == 6 || index == 8 || index == 10 {
            out.push('#');
        }
        let ghost named = out@;
        assert(named =~= old(out)@ + note_name(index as int));
        push_signed(out, (self.0 / 12) as i32 - OCTAVE_OFFSET as i32);
        assert(final(out)@ =~= old(out)@ + display_name(self.0));
    }

    /// The name of the note: its note name, then its octave.
    pub fn to_string(&self) -> (s: String)
        ensures
            s@ == display_name(self.0),
    {
        let mut s = String::new();
        self.write_name(&mut s);
        assert(s@ =~= display_name(self.0));
        s
    }
}

/// The letter of the `index`-th note name.
fn letter_of_name(index: u8) -> (letter: char)
    requires
        index < 12,
    ensures
        letter == name_letter(index as int),
{
    if index < 2 {
        'C'
    } else if index < 4 {
        'D'
    } else if index < 5 {
        'E'
    } else if index < 7 {
        'F'
    } else if index < 9 {
        'G'
    } else if index < 11 {
        'A'
    } else {
        'B'
    }
}

/// The place of a note name among the twelve.
fn index_of_name(letter: char, sharp: bool) -> (r: Option<u8>)
    ensures
        r == match name_index(letter, sharp) {
            Some(index) => Some(index as u8),
            None => None,
        },
        r matches Some(index) ==> index < 12,
{
    if letter == 'C' {
        Some(if sharp { 1 } else { 0 })
    } else if letter == 'D' {
        Some(if sharp { 3 } else { 2 })
    } else if letter == 'E' && !sharp {
        Some(4)
    } else if letter == 'F' {
        Some(if sharp { 6 } else { 5 })
    } else if letter == 'G' {
        Some(if sharp { 8 } else { 7 })
    } else if letter == 'A' {
        Some(if sharp { 10 } else { 9 })
    } else if letter == 'B' && !sharp {
        Some(11)
    } else {
        None
    }
}

impl From<u8> for Note {
    fn from(value: u8) -> (note: Self) {
        Note(value)
    }
}

impl vstd::std_specs::convert::FromSpecImpl<u8> for Note {
    open spec fn obeys_from_spec() -> bool {
        true
    }

    open spec fn from_spec(value: u8) -> Self {
        Note(value)
    }
}

impl From<Note> for u8 {
    fn from(note: Note) -> (value: Self) {
        note.0
    }
}

impl vstd::std_specs::convert::FromSpecImpl<Note> for u8 {
    open spec fn obeys_from_spec() -> bool {
        true
    }

    open spec fn from_spec(note: Note) -> Self {
        note.0
    }
}

impl Default for Note {
    fn default() -> (note: Self)
        ensures
            note == Note(0),
    {
        Note(0)
    }
}

impl PartialOrd for Note {
    fn partial_cmp(&self, other: &Self) -> (order: Option<Ordering>) {
        if self.0 < other.0 {
            Some(Ordering::Less)
        } else if self.0 == other.0 {
            Some(Ordering::Equal)
        } else {
            Some(Ordering::Greater)
        }
    }
}

impl vstd::std_specs::cmp::PartialOrdSpecImpl for Note {
    open spec fn obeys_partial_cmp_spec() -> bool {
        true
    }

    open spec fn partial_cmp_spec(&self, other: &Self) -> Option<Ordering> {
        if self.0 < other.0 {
            Some(Ordering::Less)
        } else if self.0 == other.0 {
            Some(Ordering::Equal)
        } else {
            Some(Ordering::Greater)
        }
    }
}

} // verus!
