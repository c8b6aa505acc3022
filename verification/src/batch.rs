//! Working through sample files, one after another.
//!
//! Each file is opened, its root note is read, a new root note is written
//! where one was asked for, and a new name is made for the file where a
//! format string was given. A file that fails does not stop the others: the
//! failures are counted, and the count decides how the run ends.

use crate::chunk::{tag_at, u32_le};
use crate::error::Error;
use crate::filename::{extract_note_from_filename, note_in_filename};
use crate::format::{render, FormatString, Part};
use crate::midi::Note;
use crate::sample::root_note_of;
use crate::wav::{
    appended, default_record, is_wave, locate, overwritten, sampler_record, smpl_tag,
    SamplerChunk, Update, Wav, NOTE_AT, RECORD_CONTENTS_LEN, RECORD_LEN,
};
use crate::wav_proofs::{
    is_tight, lemma_append_grows_size, lemma_append_then_locate, lemma_rewrite_keeps_layout,
    lemma_rewritten_record_is_found,
};
use vstd::prelude::*;
use vstd::string::*;

verus! {

/// What to do with the files.
#[derive(Debug)]
pub struct Options {
    /// Read and write the files in directories, and in the directories in them.
    pub recursive: bool,
    /// Do not edit or rename any file: find out what would be done.
    pub dry_run: bool,
    /// Rename each file using a format string.
    pub rename: Option<FormatString>,
    /// Set the root note to this note.
    pub root_note: Option<Note>,
    /// Set the root note to the note in the name of the file, where it has one.
    pub root_note_from_filename: bool,
}

impl Options {
    /// Whether files may have to be written.
    pub fn write(&self) -> (write: bool)
        ensures
            write == (self.root_note is Some || self.root_note_from_filename),
    {
        self.root_note.is_some() || self.root_note_from_filename
    }
}

/// What was found in a file, and what was done to it or is to be done.
#[derive(Debug)]
pub struct Processed {
    /// The root note that the file had.
    pub current_root_note: Option<Note>,
    /// The root note that the file was to get.
    pub new_root_note: Option<Note>,
    /// What was written to the stream: nothing in a dry run.
    pub update: Option<Update>,
    /// The stream as it is now.
    pub file: Vec<u8>,
    /// The name that the file is to have, where it is not the one it has.
    pub new_name: Option<String>,
}

/// The note to set: that in the name of the file where it is asked for and
/// the name gives one, else the note asked for, if any.
pub open spec fn chosen_note(root_note: Option<Note>, from_filename: bool, file_name: Seq<char>) -> Option<
    Note,
> {
    if from_filename && note_in_filename(file_name) is Some {
        Some(Note(note_in_filename(file_name)->0))
    } else {
        root_note
    }
}

/// The stream `s` once the root note `note` was set in it, and what was
/// written for that: over the sampler record where `s` has one, else a new
/// record at its end.
pub open spec fn with_root_note(s: Seq<u8>, note: Note) -> Result<(Seq<u8>, Update), Error> {
    match sampler_record(s) {
        Err(e) => Err(e),
        Ok(Some(record)) => {
            let offset = locate(s, smpl_tag())->Ok_0->Some_0;
            Ok(
                (
                    overwritten(s, offset as int, record.update(NOTE_AT as int, note.0)),
                    Update::Rewritten { offset },
                ),
            )
        },
        Ok(None) => if u32_le(s, 4) + RECORD_LEN > u32::MAX {
            Err(Error::Io)
        } else {
            Ok(
                (
                    appended(s, default_record().update(NOTE_AT as int, note.0)),
                    Update::Appended { offset: s.len() as u64 },
                ),
            )
        },
    }
}

/// The name that a format string gives a file, where it is not the name that
/// the file has.
pub open spec fn renamed(format: Option<Seq<Part>>, note: Option<Note>, file_name: Seq<char>) -> Option<
    Seq<char>,
> {
    match format {
        Some(parts) => if render(parts, note) != file_name {
            Some(render(parts, note))
        } else {
            None
        },
        None => None,
    }
}

/// `first`, or `second` where there is no `first`.
pub open spec fn or_else(first: Option<Note>, second: Option<Note>) -> Option<Note> {
    if first is Some {
        first
    } else {
        second
    }
}

/// The view of the format string of the options, if they have one.
pub open spec fn rename_parts(options: &Options) -> Option<Seq<Part>> {
    match options.rename {
        Some(format) => Some(format@),
        None => None,
    }
}

/// Whether `done` is what processing the stream `file` of the file named
/// `file_name` gives under `options`.
pub open spec fn is_processed(
    options: &Options,
    file_name: Seq<char>,
    file: Seq<u8>,
    done: Processed,
) -> bool {
    let new_note = chosen_note(options.root_note, options.root_note_from_filename, file_name);
    &&& root_note_of(file) == Ok::<Option<Note>, Error>(done.current_root_note)
    &&& done.new_root_note == new_note
    &&& if new_note is Some && !options.dry_run {
        &&& with_root_note(file, new_note->0) is Ok
        &&& done.file@ == with_root_note(file, new_note->0)->Ok_0.0
        &&& done.update == Some(with_root_note(file, new_note->0)->Ok_0.1)
    } else {
        done.file@ == file && done.update is None
    }
    &&& match renamed(rename_parts(options), or_else(new_note, done.current_root_note), file_name) {
        Some(name) => done.new_name matches Some(new_name) && new_name@ == name,
        None => done.new_name is None,
    }
}

/// Why processing the stream `file` fails under `options`, if it does: the
/// stream is no WAV stream, its sampler record cannot be read, or the new
/// root note cannot be written.
pub open spec fn process_error(options: &Options, file_name: Seq<char>, file: Seq<u8>) -> Option<
    Error,
> {
    let new_note = chosen_note(options.root_note, options.root_note_from_filename, file_name);
    match root_note_of(file) {
        Err(e) => Some(e),
        Ok(_) => if new_note is Some && !options.dry_run {
            match with_root_note(file, new_note->0) {
                Err(e) => Some(e),
                Ok(_) => None,
            }
        } else {
            None
        },
    }
}

/// A root note that was set is the root note that is read afterwards.
///
/// Where the note went into a new record, this holds of a stream that was
/// tight: in another, the walk may not come by the end of the stream, where
/// the record stands.
pub proof fn lemma_root_note_is_read_back(s: Seq<u8>, note: Note)
    requires
        is_wave(s),
        with_root_note(s, note) is Ok,
        sampler_record(s) == Ok::<Option<Seq<u8>>, Error>(None) ==> is_tight(s),
    ensures
        root_note_of(with_root_note(s, note)->Ok_0.0) == Ok::<Option<Note>, Error>(Some(note)),
{
    match sampler_record(s) {
        Ok(Some(record)) => {
            let offset = locate(s, smpl_tag())->Ok_0->Some_0;
            let written = record.update(NOTE_AT as int, note.0);
            assert(tag_at(written, 0) =~= tag_at(record, 0));
            assert(tag_at(record, 0) =~= tag_at(s, offset as int));
            lemma_rewritten_record_is_found(s, offset, written);
        },
        Ok(None) => {
            let written = default_record().update(NOTE_AT as int, note.0);
            assert(tag_at(written, 0) =~= smpl_tag());
            lemma_append_then_locate(s, written);
            lemma_append_grows_size(s, written);
        },
        Err(_) => {},
    }
}

/// Setting the root note in the sampler record of a stream moves no
/// sub-chunk, where the sampler chunk declares the 36 bytes of contents that
/// a record spans, or more.
pub proof fn lemma_root_note_keeps_layout(s: Seq<u8>, note: Note, id: Seq<u8>)
    requires
        sampler_record(s) matches Ok(Some(_)),
        u32_le(s, locate(s, smpl_tag())->Ok_0->Some_0 + 4) >= RECORD_CONTENTS_LEN,
    ensures
        with_root_note(s, note) is Ok,
        with_root_note(s, note)->Ok_0.0.len() == s.len(),
        locate(with_root_note(s, note)->Ok_0.0, id) == locate(s, id),
{
    let offset = locate(s, smpl_tag())->Ok_0->Some_0;
    let record = sampler_record(s)->Ok_0->Some_0;
    let written = record.update(NOTE_AT as int, note.0);
    assert(written.subrange(0, 8) =~= s.subrange(offset as int, offset + 8));
    lemma_rewrite_keeps_layout(s, offset, written, id);
}

/// Processes the file named `file_name`, of which `file` holds the contents.
///
/// The file is opened as a WAV stream and its root note is read. The note to
/// set is the one in the name of the file, where the options ask for that
/// and the name gives one, else the one that the options name. Unless this
/// is a dry run, the note is written to the stream. The file gets a new name
/// where the options hold a format string and what it gives, for the new
/// note or else the one found, is not the name that the file has.
pub fn process_file(options: &Options, file_name: &str, file: Vec<u8>) -> (r: Result<
    Processed,
    Error,
>)
    ensures
        match process_error(options, file_name@, file@) {
            Some(e) => r matches Err(x) && x == e,
            None => r matches Ok(done) && is_processed(options, file_name@, file@, done),
        },
{
    let mut wav = match Wav::new(file) {
        Ok(wav) => wav,
        Err(e) => {
            return Err(e);
        },
    };
    let current_root_note = match wav.get_sampler_chunk() {
        Ok(Some(chunk)) => Some(chunk.midi_unity_note()),
        Ok(None) => None,
        Err(e) => {
            return Err(e);
        },
    };
    let mut new_root_note = options.root_note;
    if options.root_note_from_filename {
        if let Some(note) = extract_note_from_filename(file_name) {
            new_root_note = Some(note);
        }
    }
    let mut update: Option<Update> = None;
    if let Some(note) = new_root_note {
        if !options.dry_run {
            let set_note = |chunk: &mut SamplerChunk|
                ensures
                    final(chunk)@ == old(chunk)@.update(NOTE_AT as int, note.0),
                { chunk.set_midi_unity_note(note); };
            match wav.update_sampler_chunk(set_note) {
                Ok(written) => {
                    update = Some(written);
                },
                Err(e) => {
                    return Err(e);
                },
            }
        }
    }
    let new_name = match &options.rename {
        Some(format) => {
            let shown = match new_root_note {
                Some(note) => Some(note),
                None => current_root_note,
            };
            let name = format.format(shown);
            let current = file_name.to_owned();
            if name == current {
                None
            } else {
                Some(name)
            }
        },
        None => None,
    };
    Ok(Processed { current_root_note, new_root_note, update, file: wav.into_inner(), new_name })
}

/// What an input path is.
#[derive(Clone, Copy, Debug, PartialEq, Eq, Structural)]
pub enum InputKind {
    File,
    Directory,
    Other,
}

/// What to do with an input path.
#[derive(Clone, Copy, Debug, PartialEq, Eq, Structural)]
pub enum InputAction {
    /// Process the file.
    Process,
    /// Process the files in the directory, and those in the directories in it
    /// where `recursive` is set.
    Expand { recursive: bool },
    /// Leave it alone.
    Skip,
}

/// What to do with an input path of the kind `kind`: a file is processed, a
/// directory stands for the files in it, and anything else is left alone.
pub fn plan_input(kind: InputKind, recursive: bool) -> (action: InputAction)
    ensures
        action == match kind {
            InputKind::File => InputAction::Process,
            InputKind::Directory => InputAction::Expand { recursive },
            InputKind::Other => InputAction::Skip,
        },
{
    match kind {
        InputKind::File => InputAction::Process,
        InputKind::Directory => InputAction::Expand { recursive },
        InputKind::Other => InputAction::Skip,
    }
}

/// How many files were processed, and how many of them failed. Both counts
/// stop at `u64::MAX`.
#[derive(Clone, Copy, Debug, PartialEq, Eq, Structural)]
pub struct Summary {
    pub processed: u64,
    pub failed: u64,
}

/// `n + 1`, or `u64::MAX` where that is less.
pub open spec fn counted(n: u64) -> u64 {
    if n < u64::MAX {
        (n + 1) as u64
    } else {
        n
    }
}

impl Summary {
    /// The summary of a run in which no file was processed yet.
    pub fn new() -> (summary: Summary)
        ensures
            summary == (Summary { processed: 0, failed: 0 }),
    {
        Summary { processed: 0, failed: 0 }
    }

    /// Counts one more file, which failed or did not.
    pub fn record(&mut self, failed: bool)
        ensures
            final(self).processed == counted(old(self).processed),
            final(self).failed == if failed {
                counted(old(self).failed)
            } else {
                old(self).failed
            },
    {
        if self.processed < u64::MAX {
            self.processed = self.processed + 1;
        }
        if failed && self.failed < u64::MAX {
            self.failed = self.failed + 1;
        }
    }

    /// The exit code of the run: zero where no file failed, one where any did.
    pub fn exit_code(&self) -> (code: u8)
        ensures
            code == if self.failed == 0 {
                0u8
            } else {
                1u8
            },
    {
        if self.failed == 0 {
            0
        } else {
            1
        }
    }
}

} // verus!
