//! Finding the root note of a sample in the name of its file.
//!
//! A note in a file name is a token of its own: a letter from `A` to `G`, an
//! optional `#`, an optional `-`, and one or more digits, with the start of
//! the name or a separator before it and the end of the name or a separator
//! after it. The separators are `-`, `_`, `.` and white space.
//!
//! A name gives a note only where it holds exactly one such token: with two
//! of them there is no telling which one is meant.

use crate::midi::{parse_note, Note};
use crate::text::{chars_of, is_digit, is_digit_char};
use vstd::prelude::*;

verus! {

pub open spec fn is_space(c: char) -> bool {
    c == ' ' || c == '\t' || c == '\n' || c == '\r' || c == '\x0b' || c == '\x0c'
}

pub open spec fn is_separator(c: char) -> bool {
    c == '-' || c == '_' || c == '.' || is_space(c)
}

pub open spec fn is_note_letter(c: char) -> bool {
    'A' <= c && c <= 'G'
}

/// Where the run of digits that starts at `i` ends: `i` itself where no digit stands there.
pub open spec fn digits_end(s: Seq<char>, i: int) -> int
    decreases s.len() - i,
{
    if 0 <= i < s.len() && is_digit(s[i]) {
        digits_end(s, i + 1)
    } else {
        i
    }
}

/// Whether a token may start at `i`: at the start of the name, or after a separator.
pub open spec fn starts_token(s: Seq<char>, i: int) -> bool {
    0 <= i < s.len() && (i == 0 || is_separator(s[i - 1]))
}

/// Where the digits of a token that starts at `i` start: after the letter,
/// and after the `#` and the `-` where they are there.
pub open spec fn digits_start(s: Seq<char>, i: int) -> int {
    let after_name = if i + 1 < s.len() && s[i + 1] == '#' {
        i + 2
    } else {
        i + 1
    };
    if after_name < s.len() && s[after_name] == '-' {
        after_name + 1
    } else {
        after_name
    }
}

/// Where the note token that starts at `i` ends, if one starts there.
pub open spec fn token_end(s: Seq<char>, i: int) -> Option<int> {
    if starts_token(s, i) && is_note_letter(s[i]) {
        let start = digits_start(s, i);
        let end = digits_end(s, start);
        if start < end && (end == s.len() || is_separator(s[end])) {
            Some(end)
        } else {
            None
        }
    } else {
        None
    }
}

/// Whether the only note token of `s` is the one that starts at `i`.
pub open spec fn sole_token(s: Seq<char>, i: int) -> bool {
    token_end(s, i) is Some && forall|j: int| #[trigger] token_end(s, j) is Some ==> j == i
}

/// The note that a file name gives: that of its only note token, where it
/// has exactly one and the token names a note.
pub open spec fn note_in_filename(s: Seq<char>) -> Option<u8> {
    if exists|i: int| sole_token(s, i) {
        let i = choose|i: int| sole_token(s, i);
        parse_note(s.subrange(i, token_end(s, i)->0))
    } else {
        None
    }
}

fn is_separator_char(c: char) -> (b: bool)
    ensures
        b == is_separator(c),
{
    c == '-' || c == '_' || c == '.' || c == ' ' || c == '\t' || c == '\n' || c == '\r' || c
        == '\x0b' || c == '\x0c'
}

/// Where the run of digits of `text` that starts at `start` ends.
fn find_digits_end(text: &Vec<char>, start: usize) -> (end: usize)
    requires
        start <= text.len(),
    ensures
        end == digits_end(text@, start as int),
        start <= end <= text.len(),
{
    let mut end = start;
    while end < text.len() && is_digit_char(text[end])
        invariant
            start <= end <= text.len(),
            digits_end(text@, end as int) == digits_end(text@, start as int),
        decreases text.len() - end,
    {
        end += 1;
    }
    end
}

/// Where the note token of `text` that starts at `i` ends, if one starts there.
fn find_token_end(text: &Vec<char>, i: usize) -> (r: Option<usize>)
    requires
        i < text.len(),
    ensures
        token_end(text@, i as int) == match r {
            Some(end) => Some(end as int),
            None => None,
        },
        r matches Some(end) ==> i < end <= text.len(),
{
    if i > 0 && !is_separator_char(text[i - 1]) {
        return None;
    }
    let c = text[i];
    if !('A' <= c && c <= 'G') {
        return None;
    }
    let mut start = i + 1;
    if start < text.len() && text[start] == '#' {
        start += 1;
    }
    if start < text.len() && text[start] == '-' {
        start += 1;
    }
    let end = find_digits_end(text, start);
    if start < end && (end == text.len() || is_separator_char(text[end])) {
        Some(end)
    } else {
        None
    }
}

/// The note that the name of a file gives, if it gives one.
///
/// `kick_C3_v2.wav` gives note 60. `a_b.wav` gives none, and neither does
/// `C3_to_D4.wav`, which holds two.
pub fn extract_note_from_filename(filename: &str) -> (r: Option<Note>)
    ensures
        r == match note_in_filename(filename@) {
            Some(value) => Some(Note(value)),
            None => None,
        },
{
    let text = chars_of(filename);
    let mut found: Option<(usize, usize)> = None;
    let mut i: usize = 0;
    while i < text.len()
        invariant
            i <= text.len(),
            text@ == filename@,
            match found {
                Some((start, end)) => {
                    &&& start < i
                    &&& token_end(text@, start as int) == Some(end as int)
                    &&& end <= text.len()
                    &&& forall|j: int| 0 <= j < i && #[trigger] token_end(text@, j) is Some ==> j == start
                },
                None => forall|j: int| 0 <= j < i ==> #[trigger] token_end(text@, j) is None,
            },
        decreases text.len() - i,
    {
        match find_token_end(&text, i) {
            Some(end) => {
                if found.is_some() {
                    assert(!exists|k: int| sole_token(text@, k)) by {
                        let (first, _) = found.unwrap();
                        assert(token_end(text@, first as int) is Some);
                        assert(token_end(text@, i as int) is Some);
                    }
                    return None;
                }
                found = Some((i, end));
            },
            None => {},
        }
        i += 1;
    }
    match found {
        Some((start, end)) => {
            proof {
                assert(sole_token(text@, start as int));
                let chosen = choose|k: int| sole_token(text@, k);
                assert(token_end(text@, start as int) is Some);
                assert(chosen == start);
            }
            let mut token: Vec<char> = Vec::new();
            let mut k: usize = start;
            while k < end
                invariant
                    start <= k <= end <= text.len(),
                    token@ == text@.subrange(start as int, k as int),
                decreases end - k,
            {
                token.push(text[k]);
                k += 1;
            }
            Note::from_chars(&token)
        },
        None => {
            assert(!exists|k: int| sole_token(text@, k));
            None
        },
    }
}

} // verus!
