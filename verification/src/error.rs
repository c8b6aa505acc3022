//! The ways in which the library's operations fail.

use vstd::prelude::*;

verus! {

/// Why an operation of this library failed.
#[derive(Clone, Copy, Debug, PartialEq, Eq, Structural)]
pub enum Error {
    /// The stream is too short for a container header, or its type tag is not `WAVE`.
    NotAContainer,
    /// The stream ends before the container that it declares does.
    Truncated,
    /// A sub-chunk's declared length does not fit in the container.
    Malformed,
    /// There are not 44 bytes of a sampler record at the offset, or they do not start with `smpl`.
    InvalidRecord,
    /// The text is neither a note number nor a note name with an octave.
    InvalidNote,
    /// The format string holds a `%` that no known specifier follows.
    InvalidFormat,
    /// The stream could not be written: its declared size cannot grow any further.
    Io,
}

impl Error {
    /// A short description of the failure.
    pub fn message(&self) -> (text: &'static str)
        ensures
            text@ == match *self {
                Error::NotAContainer => "not a WAV file"@,
                Error::Truncated => "truncated WAV file"@,
                Error::Malformed => "malformed WAV file"@,
                Error::InvalidRecord => "invalid smpl chunk"@,
                Error::InvalidNote => "invalid MIDI note"@,
                Error::InvalidFormat => "invalid format specifier"@,
                Error::Io => "cannot write to WAV file"@,
            },
    {
        match self {
            Error::NotAContainer => "not a WAV file",
            Error::Truncated => "truncated WAV file",
            Error::Malformed => "malformed WAV file",
            Error::InvalidRecord => "invalid smpl chunk",
            Error::InvalidNote => "invalid MIDI note",
            Error::InvalidFormat => "invalid format specifier",
            Error::Io => "cannot write to WAV file",
        }
    }
}

} // verus!
