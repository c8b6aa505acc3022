//! WAV streams held in memory, and the sampler record in them.
//!
//! A WAV stream is a RIFF chunk of type `WAVE`: a header of eight bytes (a tag
//! and the size of what follows, as a little-endian `u32`), the type, and then
//! sub-chunks one after another. A sub-chunk whose length is odd is followed
//! by one byte of padding.
//!
//! The sampler record is the first 44 bytes of the sub-chunk tagged `smpl`,
//! its header included. Byte 20 of the record holds the root note.

use crate::chunk::{read_chunk, read_chunk_type, same_tag, tag_at, u32_le, ChunkHeader};
use crate::error::Error;
use crate::midi::Note;
use vstd::prelude::*;

verus! {

/// The length of a sampler record.
pub const RECORD_LEN: usize = 44;

/// Where in a sampler record the root note stands.
pub const NOTE_AT: usize = 20;

/// The length that a new sampler record declares for its contents.
pub const RECORD_CONTENTS_LEN: u8 = 36;

/// The type of a WAV stream: `WAVE`.
pub open spec fn wave_tag() -> Seq<u8> {
    seq![0x57u8, 0x41u8, 0x56u8, 0x45u8]
}

/// The tag of the sampler chunk: `smpl`.
pub open spec fn smpl_tag() -> Seq<u8> {
    seq![0x73u8, 0x6du8, 0x70u8, 0x6cu8]
}

/// Whether a stream starts as a WAV stream does: a chunk header, then the type `WAVE`.
pub open spec fn is_wave(s: Seq<u8>) -> bool {
    s.len() >= 12 && tag_at(s, 8) == wave_tag()
}

/// Where the outer chunk of the stream `s` says that it ends.
pub open spec fn declared_end(s: Seq<u8>) -> int {
    8 + u32_le(s, 4)
}

/// Where the chunk after the one at `at` starts: after its header, its
/// contents, and a byte of padding where their length is odd.
pub open spec fn next_chunk(s: Seq<u8>, at: int) -> int {
    at + 8 + u32_le(s, at + 4) + u32_le(s, at + 4) % 2
}

/// The offset of the first chunk tagged `id` among the chunks of `s` that
/// start at `cur` and follow one another up to `end`.
///
/// The walk reads headers only. It fails with `Malformed` where a header or
/// the contents that it declares would reach beyond `end`, and with
/// `Truncated` where they fit below `end` but the stream is too short to hold
/// them. A chunk tagged `id` is found whatever length it declares.
pub open spec fn locate_from(s: Seq<u8>, cur: int, end: int, id: Seq<u8>) -> Result<
    Option<u64>,
    Error,
>
    decreases end + 1 - cur,
{
    if cur >= end {
        Ok(None)
    } else if cur + 8 > end {
        Err(Error::Malformed)
    } else if cur + 8 > s.len() {
        Err(Error::Truncated)
    } else if tag_at(s, cur) == id {
        Ok(Some(cur as u64))
    } else if cur + 8 + u32_le(s, cur + 4) > end {
        Err(Error::Malformed)
    } else if cur + 8 + u32_le(s, cur + 4) > s.len() {
        Err(Error::Truncated)
    } else {
        locate_from(s, next_chunk(s, cur), end, id)
    }
}

/// A chunk that the walk finds starts at or after `cur`, is tagged `id`, and
/// has its header below `end` and within the stream.
pub proof fn lemma_located_within(s: Seq<u8>, cur: int, end: int, id: Seq<u8>)
    requires
        0 <= cur,
        end <= u64::MAX,
        locate_from(s, cur, end, id) matches Ok(Some(_)),
    ensures
        ({
            let offset = locate_from(s, cur, end, id)->Ok_0->Some_0;
            &&& cur <= offset
            &&& offset + 8 <= end
            &&& offset + 8 <= s.len()
            &&& tag_at(s, offset as int) == id
        }),
    decreases end + 1 - cur,
{
    if tag_at(s, cur) != id {
        lemma_located_within(s, next_chunk(s, cur), end, id);
    }
}

/// The offset of the first sub-chunk of the WAV stream `s` that is tagged `id`.
pub open spec fn locate(s: Seq<u8>, id: Seq<u8>) -> Result<Option<u64>, Error> {
    locate_from(s, 12, declared_end(s), id)
}

/// Whether `bytes` are a sampler record: 44 bytes that start with `smpl`.
pub open spec fn is_record(bytes: Seq<u8>) -> bool {
    bytes.len() == RECORD_LEN && tag_at(bytes, 0) == smpl_tag()
}

/// The sampler record at `offset` in `s`, if there is one.
pub open spec fn record_at(s: Seq<u8>, offset: int) -> Option<Seq<u8>> {
    if 0 <= offset && offset + RECORD_LEN <= s.len() && tag_at(s, offset) == smpl_tag() {
        Some(s.subrange(offset, offset + RECORD_LEN))
    } else {
        None
    }
}

/// A new sampler record: `smpl`, the length 36, and zeros.
pub open spec fn default_record() -> Seq<u8> {
    Seq::new(
        RECORD_LEN as nat,
        |i: int|
            if i < 4 {
                smpl_tag()[i]
            } else if i == 4 {
                RECORD_CONTENTS_LEN
            } else {
                0u8
            },
    )
}

/// The sampler record of the WAV stream `s`: `None` where no sub-chunk is
/// tagged `smpl`, an error where the walk fails or the first such sub-chunk
/// does not hold a record.
pub open spec fn sampler_record(s: Seq<u8>) -> Result<Option<Seq<u8>>, Error> {
    match locate(s, smpl_tag()) {
        Err(e) => Err(e),
        Ok(None) => Ok(None),
        Ok(Some(offset)) => match record_at(s, offset as int) {
            Some(bytes) => Ok(Some(bytes)),
            None => Err(Error::InvalidRecord),
        },
    }
}

/// The stream `s` with `bytes` written over it from `at` on.
pub open spec fn overwritten(s: Seq<u8>, at: int, bytes: Seq<u8>) -> Seq<u8> {
    Seq::new(
        s.len(),
        |i: int|
            if at <= i < at + bytes.len() {
                bytes[i - at]
            } else {
                s[i]
            },
    )
}

/// The four bytes that hold `n` as a little-endian number.
pub open spec fn le_bytes(n: int) -> Seq<u8> {
    seq![
        (n % 0x100) as u8,
        (n / 0x100 % 0x100) as u8,
        (n / 0x1_0000 % 0x100) as u8,
        (n / 0x100_0000 % 0x100) as u8,
    ]
}

/// The stream `s` with `record` appended to it, and its declared size grown
/// by the length of the record.
pub open spec fn appended(s: Seq<u8>, record: Seq<u8>) -> Seq<u8> {
    overwritten(s + record, 4, le_bytes(u32_le(s, 4) + record.len()))
}

/// What an update of the sampler record wrote.
#[derive(Clone, Copy, Debug, PartialEq, Eq, Structural)]
pub enum Update {
    /// The record at `offset` was written over: 44 bytes from `offset` on.
    Rewritten { offset: u64 },
    /// A new record was appended at `offset`, the old end of the stream, and
    /// the four bytes of the declared size, from offset 4 on, were written anew.
    Appended { offset: u64 },
}

/// The sampler record of a WAV stream.
#[derive(Debug)]
pub struct SamplerChunk {
    header: [u8; 44],
}

impl View for SamplerChunk {
    type V = Seq<u8>;

    closed spec fn view(&self) -> Seq<u8> {
        self.header@
    }
}

impl SamplerChunk {
    #[verifier::type_invariant]
    spec fn well_formed(self) -> bool {
        is_record(self.header@)
    }

    /// Reads the sampler record that starts at `offset` in `stream`: 44 bytes,
    /// of which the first four are `smpl`.
    pub fn read(stream: &[u8], offset: u64) -> (r: Result<SamplerChunk, Error>)
        ensures
            match record_at(stream@, offset as int) {
                Some(bytes) => r matches Ok(chunk) && chunk@ == bytes,
                None => r matches Err(e) && e == Error::InvalidRecord,
            },
    {
        let len = stream.len();
        if len < RECORD_LEN || offset > (len - RECORD_LEN) as u64 {
            return Err(Error::InvalidRecord);
        }
        let start = offset as usize;
        let mut header = [0u8;44];
        let mut i: usize = 0;
        while i < RECORD_LEN
            invariant
                i <= RECORD_LEN,
                start + RECORD_LEN <= stream.len(),
                forall|k: int| 0 <= k < i ==> header@[k] == stream@[start + k],
            decreases RECORD_LEN - i,
        {
            header[i] = stream[start + i];
            i += 1;
        }
        assert(header@ =~= stream@.subrange(start as int, start + RECORD_LEN));
        assert(tag_at(header@, 0) =~= tag_at(stream@, start as int));
        if header[0] == 0x73 && header[1] == 0x6d && header[2] == 0x70 && header[3] == 0x6c {
            assert(tag_at(header@, 0) =~= smpl_tag());
            Ok(SamplerChunk { header })
        } else {
            assert(tag_at(header@, 0) != smpl_tag()) by {
                if tag_at(header@, 0) == smpl_tag() {
                    assert(tag_at(header@, 0)[0] == 0x73 && tag_at(header@, 0)[1] == 0x6d);
                    assert(tag_at(header@, 0)[2] == 0x70 && tag_at(header@, 0)[3] == 0x6c);
                }
            }
            Err(Error::InvalidRecord)
        }
    }

    /// The root note of the sample.
    pub fn midi_unity_note(&self) -> (note: Note)
        ensures
            note == Note(self@[NOTE_AT as int]),
    {
        Note(self.header[NOTE_AT])
    }

    /// Sets the root note of the sample, and nothing else.
    pub fn set_midi_unity_note(&mut self, note: Note)
        ensures
            final(self)@ == old(self)@.update(NOTE_AT as int, note.0),
    {
        proof {
            use_type_invariant(&*self);
        }
        assert(tag_at(self.header@.update(NOTE_AT as int, note.0), 0) =~= tag_at(self.header@, 0));
        self.header[NOTE_AT] = note.0;
    }

    /// The 44 bytes of the record.
    pub fn as_ref(&self) -> (bytes: &[u8])
        ensures
            bytes@ == self@,
            is_record(bytes@),
    {
        proof {
            use_type_invariant(self);
        }
        &self.header
    }
}

impl Default for SamplerChunk {
    /// A new record, for a stream that has none.
    fn default() -> (chunk: Self)
        ensures
            chunk@ == default_record(),
    {
        let mut header = [0u8;44];
        header[0] = 0x73;
        header[1] = 0x6d;
        header[2] = 0x70;
        header[3] = 0x6c;
        header[4] = RECORD_CONTENTS_LEN;
        assert(header@ =~= default_record());
        assert(tag_at(header@, 0) =~= smpl_tag());
        SamplerChunk { header }
    }
}

/// A WAV stream, with the header of its outer chunk.
#[derive(Debug)]
pub struct Wav {
    file: Vec<u8>,
    header: ChunkHeader,
}

impl View for Wav {
    type V = Seq<u8>;

    closed spec fn view(&self) -> Seq<u8> {
        self.file@
    }
}

impl Wav {
    #[verifier::type_invariant]
    spec fn well_formed(self) -> bool {
        &&& is_wave(self.file@)
        &&& self.header.offset == 0
        &&& self.header.id@ == tag_at(self.file@, 0)
        &&& self.header.len == u32_le(self.file@, 4)
    }

    /// Opens a stream as a WAV stream: its outer chunk must have the type `WAVE`.
    pub fn new(file: Vec<u8>) -> (r: Result<Wav, Error>)
        ensures
            match r {
                Ok(wav) => is_wave(file@) && wav@ == file@,
                Err(e) => !is_wave(file@) && e == Error::NotAContainer,
            },
    {
        let header = match read_chunk(file.as_slice(), 0) {
            Ok(header) => header,
            Err(_) => {
                return Err(Error::NotAContainer);
            },
        };
        let tag = match read_chunk_type(file.as_slice(), header.offset) {
            Ok(tag) => tag,
            Err(_) => {
                return Err(Error::NotAContainer);
            },
        };
        if tag[0] == 0x57 && tag[1] == 0x41 && tag[2] == 0x56 && tag[3] == 0x45 {
            assert(tag@ =~= wave_tag());
            Ok(Wav { file, header })
        } else {
            assert(tag@ != wave_tag()) by {
                if tag@ == wave_tag() {
                    assert(tag@[0] == 0x57 && tag@[1] == 0x41 && tag@[2] == 0x56 && tag@[3] == 0x45);
                }
            }
            Err(Error::NotAContainer)
        }
    }

    /// The bytes of the stream.
    pub fn bytes(&self) -> (bytes: &[u8])
        ensures
            bytes@ == self@,
            is_wave(bytes@),
    {
        proof {
            use_type_invariant(self);
        }
        self.file.as_slice()
    }

    /// Gives the stream back.
    pub fn into_inner(self) -> (file: Vec<u8>)
        ensures
            file@ == self@,
            is_wave(file@),
    {
        proof {
            use_type_invariant(&self);
        }
        self.file
    }

    /// The size that the outer chunk declares for its contents.
    pub fn declared_size(&self) -> (size: u32)
        ensures
            size == u32_le(self@, 4),
    {
        proof {
            use_type_invariant(self);
        }
        self.header.len
    }

    /// The offset of the first sub-chunk tagged `id`, if there is one.
    ///
    /// Sub-chunks are walked in order from the first, which follows the type
    /// of the outer chunk, as far as the outer chunk declares its contents;
    /// none is entered.
    pub fn find_chunk_offset(&self, id: &[u8; 4]) -> (r: Result<Option<u64>, Error>)
        ensures
            r == locate(self@, id@),
    {
        proof {
            use_type_invariant(self);
        }
        let len: u64 = self.file.len() as u64;
        let end: u64 = 8 + self.header.len as u64;
        let mut cur: u64 = 12;
        while cur < end
            invariant
                12 <= cur,
                end == declared_end(self.file@),
                len == self.file@.len(),
                locate_from(self.file@, cur as int, end as int, id@) == locate(self@, id@),
            decreases end + 1 - cur,
        {
            if end - cur < 8 {
                return Err(Error::Malformed);
            }
            let header = match read_chunk(self.file.as_slice(), cur) {
                Ok(header) => header,
                Err(_) => {
                    return Err(Error::Truncated);
                },
            };
            if same_tag(&header.id, id) {
                return Ok(Some(cur));
            }
            let contents_end: u64 = cur + 8 + header.len as u64;
            if contents_end > end {
                return Err(Error::Malformed);
            }
            if contents_end > len {
                return Err(Error::Truncated);
            }
            cur = contents_end + (header.len % 2) as u64;
        }
        Ok(None)
    }

    /// The sampler record of the stream, if it has one.
    pub fn get_sampler_chunk(&self) -> (r: Result<Option<SamplerChunk>, Error>)
        ensures
            match sampler_record(self@) {
                Ok(Some(bytes)) => r matches Ok(Some(chunk)) && chunk@ == bytes,
                Ok(None) => r matches Ok(None),
                Err(e) => r matches Err(x) && x == e,
            },
    {
        let smpl: [u8; 4] = [0x73, 0x6d, 0x70, 0x6c];
        assert(smpl@ =~= smpl_tag());
        match self.find_chunk_offset(&smpl) {
            Err(e) => Err(e),
            Ok(None) => Ok(None),
            Ok(Some(offset)) => match SamplerChunk::read(self.file.as_slice(), offset) {
                Ok(chunk) => Ok(Some(chunk)),
                Err(e) => Err(e),
            },
        }
    }

    /// Changes the sampler record with `f` and writes it to the stream.
    ///
    /// Where the stream has a record, `f` gets it, and what `f` leaves is
    /// written over it, in place. Where it has none, `f` gets a new record,
    /// and what `f` leaves is appended to the stream; the declared size of the
    /// outer chunk then grows by the 44 bytes of the record. The append fails
    /// with `Io`, and nothing is written, where the size would no longer fit
    /// in its four bytes.
    pub fn update_sampler_chunk<F: FnOnce(&mut SamplerChunk)>(&mut self, f: F) -> (r: Result<
        Update,
        Error,
    >)
        requires
            forall|chunk: &mut SamplerChunk| is_record((*chunk)@) ==> f.requires((chunk,)),
        ensures
            match sampler_record(old(self)@) {
                Err(e) => r == Err::<Update, Error>(e) && final(self)@ == old(self)@,
                Ok(Some(bytes)) => {
                    let offset = locate(old(self)@, smpl_tag())->Ok_0->Some_0;
                    &&& r == Ok::<Update, Error>(Update::Rewritten { offset })
                    &&& exists|chunk: &mut SamplerChunk|
                        {
                            &&& (*chunk)@ == bytes
                            &&& f.ensures((chunk,), ())
                            &&& is_record((*final(chunk))@)
                            &&& final(self)@ == overwritten(
                                old(self)@,
                                offset as int,
                                (*final(chunk))@,
                            )
                        }
                },
                Ok(None) => if u32_le(old(self)@, 4) + RECORD_LEN > u32::MAX {
                    r == Err::<Update, Error>(Error::Io) && final(self)@ == old(self)@
                } else {
                    &&& r == Ok::<Update, Error>(
                        Update::Appended { offset: old(self)@.len() as u64 },
                    )
                    &&& exists|chunk: &mut SamplerChunk|
                        {
                            &&& (*chunk)@ == default_record()
                            &&& f.ensures((chunk,), ())
                            &&& is_record((*final(chunk))@)
                            &&& final(self)@ == appended(old(self)@, (*final(chunk))@)
                        }
                },
            },
    {
        proof {
            use_type_invariant(&*self);
        }
        let smpl: [u8; 4] = [0x73, 0x6d, 0x70, 0x6c];
        assert(smpl@ =~= smpl_tag());
        match self.find_chunk_offset(&smpl) {
            Err(e) => Err(e),
            Ok(Some(offset)) => {
                let mut chunk = match SamplerChunk::read(self.file.as_slice(), offset) {
                    Ok(chunk) => chunk,
                    Err(e) => {
                        return Err(e);
                    },
                };
                proof {
                    use_type_invariant(&chunk);
                    lemma_located_within(self.file@, 12, declared_end(self.file@), smpl_tag());
                }
                f(&mut chunk);
                self.rewrite(offset, chunk.as_ref());
                Ok(Update::Rewritten { offset })
            },
            Ok(None) => {
                if self.header.len > u32::MAX - RECORD_LEN as u32 {
                    return Err(Error::Io);
                }
                let mut chunk = SamplerChunk::default();
                proof {
                    use_type_invariant(&chunk);
                }
                f(&mut chunk);
                let offset = self.file.len() as u64;
                self.append(chunk.as_ref());
                Ok(Update::Appended { offset })
            },
        }
    }
}

impl Wav {
    /// Writes `record` over the bytes of the stream from `offset` on.
    fn rewrite(&mut self, offset: u64, record: &[u8])
        requires
            record@.len() == RECORD_LEN,
            12 <= offset,
            offset + RECORD_LEN <= old(self)@.len(),
        ensures
            final(self)@ == overwritten(old(self)@, offset as int, record@),
    {
        proof {
            use_type_invariant(&*self);
        }
        let len = self.file.len();
        let ghost written = overwritten(self.file@, offset as int, record@);
        assert(tag_at(written, 0) =~= tag_at(self.file@, 0));
        assert(tag_at(written, 8) =~= tag_at(self.file@, 8));
        write_record(&mut self.file, offset as usize, record);
    }

    /// Appends `record` to the stream and adds its length to the declared
    /// size, in the stream and in the header read from it.
    fn append(&mut self, record: &[u8])
        requires
            record@.len() == RECORD_LEN,
            u32_le(old(self)@, 4) + RECORD_LEN <= u32::MAX,
        ensures
            final(self)@ == appended(old(self)@, record@),
    {
        proof {
            use_type_invariant(&*self);
        }
        let size: u32 = self.header.len + RECORD_LEN as u32;
        let mut file = self.file.clone();
        file.extend_from_slice(record);
        assert(file@ =~= self.file@ + record@);
        write_size(&mut file, size);
        proof {
            lemma_size_written(self.file@ + record@, size);
            assert(tag_at(self.file@ + record@, 0) =~= tag_at(self.file@, 0));
            assert(tag_at(self.file@ + record@, 8) =~= tag_at(self.file@, 8));
        }
        let header = ChunkHeader { id: self.header.id, len: size, offset: 0 };
        *self = Wav { file, header };
    }
}

/// Writes `size` over the declared size of the stream `file`.
fn write_size(file: &mut Vec<u8>, size: u32)
    requires
        old(file)@.len() >= 8,
    ensures
        final(file)@ == overwritten(old(file)@, 4, le_bytes(size as int)),
{
    file[4] = (size % 0x100) as u8;
    file[5] = (size / 0x100 % 0x100) as u8;
    file[6] = (size / 0x1_0000 % 0x100) as u8;
    file[7] = (size / 0x100_0000 % 0x100) as u8;
    assert(file@ =~= overwritten(old(file)@, 4, le_bytes(size as int)));
}

/// A stream over whose declared size `size` was written declares `size`, and
/// starts with the same tag and has the same type as before.
pub proof fn lemma_size_written(s: Seq<u8>, size: u32)
    requires
        s.len() >= 12,
    ensures
        u32_le(overwritten(s, 4, le_bytes(size as int)), 4) == size,
        tag_at(overwritten(s, 4, le_bytes(size as int)), 0) == tag_at(s, 0),
        tag_at(overwritten(s, 4, le_bytes(size as int)), 8) == tag_at(s, 8),
{
    let written = overwritten(s, 4, le_bytes(size as int));
    assert(tag_at(written, 0) =~= tag_at(s, 0));
    assert(tag_at(written, 8) =~= tag_at(s, 8));
    let n = size as int;
    assert(written[4] == (n % 0x100) as u8);
    assert(written[5] == (n / 0x100 % 0x100) as u8);
    assert(written[6] == (n / 0x1_0000 % 0x100) as u8);
    assert(written[7] == (n / 0x100_0000 % 0x100) as u8);
    assert(n == n % 0x100 + (n / 0x100 % 0x100) * 0x100 + (n / 0x1_0000 % 0x100) * 0x1_0000 + (n
        / 0x100_0000 % 0x100) * 0x100_0000) by {
        assert(n / 0x100_0000 < 0x100);
        assert(n / 0x1_0000 == (n / 0x100_0000) * 0x100 + n / 0x1_0000 % 0x100);
        assert(n / 0x100 == (n / 0x1_0000) * 0x100 + n / 0x100 % 0x100);
    }
}

/// Writes a record over the bytes of `file` from `at` on.
fn write_record(file: &mut Vec<u8>, at: usize, record: &[u8])
    requires
        record@.len() == RECORD_LEN,
        at + RECORD_LEN <= old(file)@.len(),
    ensures
        final(file)@ == overwritten(old(file)@, at as int, record@),
    no_unwind
{
    let len = file.len();
    let mut i: usize = 0;
    while i < RECORD_LEN
        invariant
            i <= RECORD_LEN,
            record@.len() == RECORD_LEN,
            at + RECORD_LEN <= file@.len() <= usize::MAX,
            file@ == overwritten(old(file)@, at as int, record@.take(i as int)),
        decreases RECORD_LEN - i,
    {
        file[at + i] = record[i];
        i += 1;
        assert(file@ =~= overwritten(old(file)@, at as int, record@.take(i as int)));
    }
    assert(record@.take(RECORD_LEN as int) =~= record@);
}

} // verus!
