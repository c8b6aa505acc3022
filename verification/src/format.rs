//! Format strings for the names of sample files.
//!
//! A format string is text in which `%m` stands for the number of the root
//! note, written with three digits, `%n` for the name of the root note, and
//! `%%` for a percent sign. Where a sample has no root note, `%m` and `%n`
//! stand for nothing.
//!
//! What becomes of a `%` that none of `m`, `n`, `%` follows is a matter of the
//! syntax chosen: the strict syntax refuses the format string, the permissive
//! one takes the `%`, and the character after it, as they stand.

use crate::error::Error;
use crate::midi::{display_name, Note};
use crate::text::{chars_of, digit_char};
use vstd::prelude::*;
use vstd::string::*;

verus! {

/// How a format string treats a `%` that no specifier follows.
#[derive(Clone, Copy, Debug, PartialEq, Eq, Structural)]
pub enum Syntax {
    /// Such a `%` makes the format string invalid.
    Strict,
    /// Such a `%` stands for itself, and so does the character after it.
    Permissive,
}

/// One part of a format string.
#[derive(Debug)]
pub enum FormatPart {
    Literal(String),
    MidiNote,
    Note,
}

/// What one part of a format string says.
pub enum Part {
    /// Text that stands for itself.
    Literal(Seq<char>),
    /// The number of the root note, in three digits.
    MidiNote,
    /// The name of the root note.
    Note,
}

impl View for FormatPart {
    type V = Part;

    open spec fn view(&self) -> Part {
        match self {
            FormatPart::Literal(text) => Part::Literal(text@),
            FormatPart::MidiNote => Part::MidiNote,
            FormatPart::Note => Part::Note,
        }
    }
}

/// Format string for a sample filename.
#[derive(Debug)]
pub struct FormatString {
    parts: Vec<FormatPart>,
}

impl View for FormatString {
    type V = Seq<Part>;

    closed spec fn view(&self) -> Seq<Part> {
        self.parts@.map_values(|part: FormatPart| part@)
    }
}

/// The literal part that pending text makes: none where there is no text.
pub open spec fn flush(text: Seq<char>) -> Seq<Part> {
    if text.len() > 0 {
        seq![Part::Literal(text)]
    } else {
        Seq::empty()
    }
}

/// `head` and then `tail`, where there is a `tail`.
pub open spec fn followed_by(head: Seq<Part>, tail: Option<Seq<Part>>) -> Option<Seq<Part>> {
    match tail {
        Some(tail) => Some(head + tail),
        None => None,
    }
}

/// The parts of `s[i..]`, after literal text `text` that no part holds yet.
///
/// Literal text gathers until a `%m` or `%n` or the end of the format string
/// closes it, so no literal part is empty and no two stand side by side.
pub open spec fn parts_from(s: Seq<char>, i: int, text: Seq<char>, syntax: Syntax) -> Option<
    Seq<Part>,
>
    decreases s.len() - i,
{
    if i >= s.len() {
        Some(flush(text))
    } else if s[i] != '%' {
        parts_from(s, i + 1, text.push(s[i]), syntax)
    } else if i + 1 >= s.len() {
        match syntax {
            Syntax::Strict => None,
            Syntax::Permissive => Some(flush(text.push('%'))),
        }
    } else if s[i + 1] == '%' {
        parts_from(s, i + 2, text.push('%'), syntax)
    } else if s[i + 1] == 'm' {
        followed_by(flush(text).push(Part::MidiNote), parts_from(s, i + 2, Seq::empty(), syntax))
    } else if s[i + 1] == 'n' {
        followed_by(flush(text).push(Part::Note), parts_from(s, i + 2, Seq::empty(), syntax))
    } else {
        match syntax {
            Syntax::Strict => None,
            Syntax::Permissive => parts_from(s, i + 2, text.push('%').push(s[i + 1]), syntax),
        }
    }
}

/// The parts of the format string `s`, or `None` where it is invalid.
pub open spec fn parse_format(s: Seq<char>, syntax: Syntax) -> Option<Seq<Part>> {
    parts_from(s, 0, Seq::empty(), syntax)
}

/// The number of a note in three digits, with leading zeros.
pub open spec fn midi_number(value: u8) -> Seq<char> {
    seq![
        digit_char((value / 100) as nat),
        digit_char((value / 10 % 10) as nat),
        digit_char((value % 10) as nat),
    ]
}

/// The text that stands for `%m`.
pub open spec fn number_text(note: Option<Note>) -> Seq<char> {
    match note {
        Some(note) => midi_number(note.0),
        None => Seq::empty(),
    }
}

/// The text that stands for `%n`.
pub open spec fn name_text(note: Option<Note>) -> Seq<char> {
    match note {
        Some(note) => display_name(note.0),
        None => Seq::empty(),
    }
}

/// The text that one part gives.
pub open spec fn part_text(part: Part, note: Option<Note>) -> Seq<char> {
    match part {
        Part::Literal(text) => text,
        Part::MidiNote => number_text(note),
        Part::Note => name_text(note),
    }
}

/// The text that the parts give, one after another.
pub open spec fn render(parts: Seq<Part>, note: Option<Note>) -> Seq<char>
    decreases parts.len(),
{
    if parts.len() == 0 {
        Seq::empty()
    } else {
        render(parts.drop_last(), note) + part_text(parts.last(), note)
    }
}

/// What `s[i..]` stands for under the permissive syntax: the text itself, with
/// each `%m` and `%n` replaced by what it stands for and each `%%` by `%`.
pub open spec fn expand_from(s: Seq<char>, i: int, note: Option<Note>) -> Seq<char>
    decreases s.len() - i,
{
    if i >= s.len() {
        Seq::empty()
    } else if s[i] != '%' {
        seq![s[i]] + expand_from(s, i + 1, note)
    } else if i + 1 >= s.len() {
        seq!['%']
    } else if s[i + 1] == '%' {
        seq!['%'] + expand_from(s, i + 2, note)
    } else if s[i + 1] == 'm' {
        number_text(note) + expand_from(s, i + 2, note)
    } else if s[i + 1] == 'n' {
        name_text(note) + expand_from(s, i + 2, note)
    } else {
        seq!['%', s[i + 1]] + expand_from(s, i + 2, note)
    }
}

/// Whether a part is literal text.
pub open spec fn is_literal(part: Part) -> bool {
    part is Literal
}

pub proof fn lemma_render_push(parts: Seq<Part>, part: Part, note: Option<Note>)
    ensures
        render(parts.push(part), note) == render(parts, note) + part_text(part, note),
{
    assert(parts.push(part).drop_last() =~= parts);
}

pub proof fn lemma_render_add(a: Seq<Part>, b: Seq<Part>, note: Option<Note>)
    ensures
        render(a + b, note) == render(a, note) + render(b, note),
    decreases b.len(),
{
    if b.len() == 0 {
        assert(a + b =~= a);
        assert(render(a, note) + render(b, note) =~= render(a, note));
    } else {
        lemma_render_add(a, b.drop_last(), note);
        assert((a + b).drop_last() =~= a + b.drop_last());
        assert(render(a + b, note) =~= render(a, note) + render(b, note));
    }
}

pub proof fn lemma_render_flush(text: Seq<char>, note: Option<Note>)
    ensures
        render(flush(text), note) == text,
{
    if text.len() > 0 {
        lemma_render_push(Seq::empty(), Part::Literal(text), note);
        assert(Seq::<Part>::empty().push(Part::Literal(text)) =~= flush(text));
        assert(render(Seq::<Part>::empty(), note) + text =~= text);
    } else {
        assert(text =~= Seq::<char>::empty());
    }
}

/// A format string that parses renders to its own text, with each `%m`
/// replaced by the number of the note, each `%n` by its name, and each `%%` by
/// a percent sign: to nothing in place of `%m` and `%n` where there is no note.
pub proof fn lemma_render_parsed(s: Seq<char>, syntax: Syntax, note: Option<Note>)
    requires
        parse_format(s, syntax) is Some,
    ensures
        render(parse_format(s, syntax)->0, note) == expand_from(s, 0, note),
{
    lemma_render_parts_from(s, 0, Seq::empty(), syntax, note);
    assert(Seq::<char>::empty() + expand_from(s, 0, note) =~= expand_from(s, 0, note));
}

proof fn lemma_render_parts_from(
    s: Seq<char>,
    i: int,
    text: Seq<char>,
    syntax: Syntax,
    note: Option<Note>,
)
    requires
        0 <= i,
        parts_from(s, i, text, syntax) is Some,
    ensures
        render(parts_from(s, i, text, syntax)->0, note) == text + expand_from(s, i, note),
    decreases s.len() - i,
{
    let parts = parts_from(s, i, text, syntax)->0;
    let expanded = expand_from(s, i, note);
    if i >= s.len() {
        lemma_render_flush(text, note);
        assert(text + expanded =~= text);
    } else if s[i] != '%' {
        lemma_render_parts_from(s, i + 1, text.push(s[i]), syntax, note);
        assert(text.push(s[i]) + expand_from(s, i + 1, note) =~= text + expanded);
    } else if i + 1 >= s.len() {
        lemma_render_flush(text.push('%'), note);
        assert(text.push('%') =~= text + expanded);
    } else if s[i + 1] == '%' {
        lemma_render_parts_from(s, i + 2, text.push('%'), syntax, note);
        assert(text.push('%') + expand_from(s, i + 2, note) =~= text + expanded);
    } else if s[i + 1] == 'm' || s[i + 1] == 'n' {
        let part = if s[i + 1] == 'm' {
            Part::MidiNote
        } else {
            Part::Note
        };
        let rest = parts_from(s, i + 2, Seq::empty(), syntax)->0;
        lemma_render_parts_from(s, i + 2, Seq::empty(), syntax, note);
        lemma_render_add(flush(text).push(part), rest, note);
        lemma_render_push(flush(text), part, note);
        lemma_render_flush(text, note);
        assert(text + part_text(part, note) + (Seq::<char>::empty() + expand_from(s, i + 2, note))
            =~= text + expanded);
    } else {
        lemma_render_parts_from(s, i + 2, text.push('%').push(s[i + 1]), syntax, note);
        assert(text.push('%').push(s[i + 1]) + expand_from(s, i + 2, note) =~= text + expanded);
    }
}

/// With no note, a format string renders as it does once its `%m` and `%n`
/// are taken out of it: a part that is left out leaves nothing behind.
pub proof fn lemma_render_without_note(parts: Seq<Part>, note: Option<Note>)
    ensures
        render(parts, None) == render(parts.filter(|part: Part| is_literal(part)), note),
    decreases parts.len(),
{
    let literal = |part: Part| is_literal(part);
    if parts.len() == 0 {
        assert(parts.filter(literal) =~= Seq::<Part>::empty());
    } else {
        let front = parts.drop_last();
        let last = parts.last();
        lemma_render_without_note(front, note);
        assert(parts =~= front.push(last));
        front.lemma_filter_push(last, literal);
        if is_literal(last) {
            lemma_render_push(front.filter(literal), last, note);
        }
    }
}

/// What the strict syntax accepts, the permissive syntax reads in the same way.
pub proof fn lemma_strict_is_permissive(s: Seq<char>, i: int, text: Seq<char>)
    requires
        0 <= i,
        parts_from(s, i, text, Syntax::Strict) is Some,
    ensures
        parts_from(s, i, text, Syntax::Permissive) == parts_from(s, i, text, Syntax::Strict),
    decreases s.len() - i,
{
    if i >= s.len() {
    } else if s[i] != '%' {
        lemma_strict_is_permissive(s, i + 1, text.push(s[i]));
    } else if i + 1 >= s.len() {
    } else if s[i + 1] == '%' {
        lemma_strict_is_permissive(s, i + 2, text.push('%'));
    } else if s[i + 1] == 'm' || s[i + 1] == 'n' {
        lemma_strict_is_permissive(s, i + 2, Seq::empty());
    }
}

impl FormatString {
    /// Reads a format string under the strict syntax.
    pub fn from_str(s: &str) -> (r: Result<FormatString, Error>)
        ensures
            match parse_format(s@, Syntax::Strict) {
                Some(parts) => r matches Ok(format) && format@ == parts,
                None => r matches Err(e) && e == Error::InvalidFormat,
            },
    {
        FormatString::parse(s, Syntax::Strict)
    }

    /// Reads a format string under the syntax given.
    pub fn parse(s: &str, syntax: Syntax) -> (r: Result<FormatString, Error>)
        ensures
            match parse_format(s@, syntax) {
                Some(parts) => r matches Ok(format) && format@ == parts,
                None => r matches Err(e) && e == Error::InvalidFormat,
            },
    {
        let text = chars_of(s);
        let mut parts: Vec<FormatPart> = Vec::new();
        let mut literal = String::new();
        let mut i: usize = 0;
        assert(Seq::<Part>::empty() + parts_from(s@, 0, Seq::empty(), syntax)->0 =~= parts_from(
            s@,
            0,
            Seq::empty(),
            syntax,
        )->0);
        assert(parts@.map_values(|part: FormatPart| part@) =~= Seq::<Part>::empty());
        while i < text.len()
            invariant
                i <= text.len(),
                text@ == s@,
                parse_format(s@, syntax) == followed_by(
                    parts@.map_values(|part: FormatPart| part@),
                    parts_from(s@, i as int, literal@, syntax),
                ),
            decreases text.len() - i,
        {
            let c = text[i];
            if c != '%' {
                literal.push(c);
                i += 1;
            } else if i + 1 >= text.len() {
                match syntax {
                    Syntax::Strict => {
                        return Err(Error::InvalidFormat);
                    },
                    Syntax::Permissive => {
                        literal.push('%');
                        i += 1;
                    },
                }
            } else {
                let d = text[i + 1];
                if d == '%' {
                    literal.push('%');
                } else if d == 'm' || d == 'n' {
                    let ghost before = parts@.map_values(|part: FormatPart| part@);
                    let ghost pending = literal@;
                    if !literal.as_str().is_empty() {
                        parts.push(FormatPart::Literal(literal));
                        literal = String::new();
                    }
                    assert(parts@.map_values(|part: FormatPart| part@) =~= before + flush(pending));
                    let part = if d == 'm' {
                        FormatPart::MidiNote
                    } else {
                        FormatPart::Note
                    };
                    let ghost closed = flush(pending).push(part@);
                    parts.push(part);
                    assert(parts@.map_values(|part: FormatPart| part@) =~= before + closed);
                    assert(literal@ =~= Seq::<char>::empty());
                    proof {
                        let rest = parts_from(s@, i + 2, Seq::empty(), syntax);
                        if rest is Some {
                            assert(before + (closed + rest->0) =~= (before + closed) + rest->0);
                        }
                    }
                } else {
                    match syntax {
                        Syntax::Strict => {
                            return Err(Error::InvalidFormat);
                        },
                        Syntax::Permissive => {
                            literal.push('%');
                            literal.push(d);
                        },
                    }
                }
                i += 2;
            }
        }
        let ghost before = parts@.map_values(|part: FormatPart| part@);
        let ghost pending = literal@;
        if !literal.as_str().is_empty() {
            parts.push(FormatPart::Literal(literal));
        }
        assert(parts@.map_values(|part: FormatPart| part@) =~= before + flush(pending));
        Ok(FormatString { parts })
    }

    /// Format a filename using the given properties.
    pub fn format(&self, root_note: Option<Note>) -> (name: String)
        ensures
            name@ == render(self@, root_note),
    {
        let mut name = String::new();
        let mut i: usize = 0;
        let ghost parts = self@;
        assert(parts.take(0) =~= Seq::<Part>::empty());
        while i < self.parts.len()
            invariant
                i <= self.parts.len(),
                parts == self.parts@.map_values(|part: FormatPart| part@),
                name@ == render(parts.take(i as int), root_note),
            decreases self.parts.len() - i,
        {
            let ghost before = name@;
            match &self.parts[i] {
                FormatPart::Literal(literal) => {
                    name.append(literal.as_str());
                },
                FormatPart::MidiNote => {
                    if let Some(note) = root_note {
                        push_midi_number(&mut name, note.0);
                    }
                },
                FormatPart::Note => {
                    if let Some(note) = root_note {
                        note.write_name(&mut name);
                    }
                },
            }
            proof {
                assert(parts.take(i + 1) =~= parts.take(i as int).push(parts[i as int]));
                lemma_render_push(parts.take(i as int), parts[i as int], root_note);
                assert(name@ =~= before + part_text(parts[i as int], root_note));
            }
            i += 1;
        }
        assert(parts.take(i as int) =~= parts);
        name
    }
}

/// Appends the number of a note in three digits.
fn push_midi_number(out: &mut String, value: u8)
    ensures
        final(out)@ == old(out)@ + midi_number(value),
{
    out.push((value / 100 + 48) as char);
    out.push((value / 10 % 10 + 48) as char);
    out.push((value % 10 + 48) as char);
    assert(final(out)@ =~= old(out)@ + midi_number(value));
}

} // verus!
