//! Reading and editing the root note that a WAV file carries in its `smpl`
//! chunk, naming notes, and renaming sample files from a format string.
//!
//! Notes are named with middle C (MIDI note 60) as `C3`: note 0 is `C-2`.

pub mod batch;
pub mod chunk;
pub mod error;
pub mod filename;
pub mod format;
pub mod midi;
pub mod path;
pub mod sample;
pub mod text;
pub mod wav;
pub mod wav_proofs;
pub mod workspace;
