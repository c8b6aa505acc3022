//! A sample: a WAV file and what is known of it.

use crate::error::Error;
use crate::midi::Note;
use crate::path::{file_name, shown_name};
use crate::wav::{is_wave, sampler_record, Wav, NOTE_AT};
use vstd::prelude::*;

verus! {

/// The root note that the WAV stream `s` carries, if it carries one.
pub open spec fn root_note_of(s: Seq<u8>) -> Result<Option<Note>, Error> {
    if !is_wave(s) {
        Err(Error::NotAContainer)
    } else {
        match sampler_record(s) {
            Err(e) => Err(e),
            Ok(None) => Ok(None),
            Ok(Some(record)) => Ok(Some(Note(record[NOTE_AT as int]))),
        }
    }
}

/// A WAV file along with sample attributes.
#[derive(Debug)]
pub struct Sample {
    path: String,
    name: Option<String>,
    note: Option<Note>,
}

impl Sample {
    /// The path that the sample was read from.
    pub closed spec fn spec_path(&self) -> Seq<char> {
        self.path@
    }

    /// The final component of the path, if it has one.
    pub closed spec fn file_name(&self) -> Option<Seq<char>> {
        match self.name {
            Some(name) => Some(name@),
            None => None,
        }
    }

    /// The root note of the sample, if it has one.
    pub closed spec fn spec_note(&self) -> Option<Note> {
        self.note
    }

    /// Reads a sample from the contents of the file at `path`.
    ///
    /// This validates that the file is a WAV file and scrapes some metadata;
    /// the contents are not kept.
    pub fn read(path: &str, file: Vec<u8>) -> (r: Result<Sample, Error>)
        ensures
            match root_note_of(file@) {
                Ok(note) => r matches Ok(sample) && sample.spec_path() == path@
                    && sample.spec_note() == note,
                Err(e) => r matches Err(x) && x == e,
            },
    {
        let wav = match Wav::new(file) {
            Ok(wav) => wav,
            Err(e) => {
                return Err(e);
            },
        };
        let note = match wav.get_sampler_chunk() {
            Ok(Some(chunk)) => Some(chunk.midi_unity_note()),
            Ok(None) => None,
            Err(e) => {
                return Err(e);
            },
        };
        Ok(Sample { path: path.to_owned(), name: file_name(path), note })
    }

    /// The name of the file, or `<unknown>` where the path has none.
    pub fn name(&self) -> (name: &str)
        ensures
            name@ == shown_name(self.file_name()),
    {
        match &self.name {
            Some(name) => name.as_str(),
            None => "<unknown>",
        }
    }

    pub fn path(&self) -> (path: &str)
        ensures
            path@ == self.spec_path(),
    {
        self.path.as_str()
    }

    pub fn note(&self) -> (note: Option<&Note>)
        ensures
            note == match self.spec_note() {
                Some(n) => Some(&n),
                None => None,
            },
    {
        self.note.as_ref()
    }
}

} // verus!
