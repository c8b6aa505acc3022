//! Chunk headers of a RIFF stream held in memory, read with the `riff` crate.
//!
//! A chunk starts with a four-byte tag and the length of its contents as a
//! little-endian `u32`. A chunk that holds other chunks has a second tag, its
//! type, in the first four bytes of its contents.

use vstd::prelude::*;

verus! {

/// The error of a read from a stream.
#[verifier::external_type_specification]
#[verifier::external_body]
pub struct ExIoError(std::io::Error);

/// The header of a chunk: its tag, the length that it declares for its
/// contents, and where in the stream the header starts.
#[derive(Clone, Copy, Debug)]
pub struct ChunkHeader {
    pub id: [u8; 4],
    pub len: u32,
    pub offset: u64,
}

/// The four bytes of `s` from `at` on.
pub open spec fn tag_at(s: Seq<u8>, at: int) -> Seq<u8> {
    s.subrange(at, at + 4)
}

/// The little-endian number in the four bytes of `s` from `at` on.
pub open spec fn u32_le(s: Seq<u8>, at: int) -> int {
    s[at] + s[at + 1] * 0x100 + s[at + 2] * 0x1_0000 + s[at + 3] * 0x100_0000
}

/// Reads the header of the chunk that starts at `pos` with `riff::Chunk::read`,
/// on a cursor over `stream`. The read succeeds where the stream holds eight
/// bytes from `pos` on, and fails where it ends before that. The header gives
/// the first four of them as the tag, the other four as a little-endian
/// length, and `pos` as the offset.
#[verifier::external_body]
pub(crate) fn read_chunk(stream: &[u8], pos: u64) -> (r: Result<ChunkHeader, std::io::Error>)
    ensures
        r is Ok <==> pos + 8 <= stream@.len(),
        r matches Ok(header) ==> {
            &&& header.offset == pos
            &&& header.id@ == tag_at(stream@, pos as int)
            &&& header.len == u32_le(stream@, pos + 4)
        },
{
    let mut cursor = std::io::Cursor::new(stream);
    let chunk = riff::Chunk::read(&mut cursor, pos)?;
    Ok(ChunkHeader { id: chunk.id().value, len: chunk.len(), offset: chunk.offset() })
}

/// Reads the type of the chunk that starts at `pos`: `riff::Chunk::read`
/// gives the chunk, `riff::Chunk::read_type` its type, both on a cursor over
/// `stream`. The reads succeed where the stream holds twelve bytes from `pos`
/// on, and the type is the last four of them.
#[verifier::external_body]
pub(crate) fn read_chunk_type(stream: &[u8], pos: u64) -> (r: Result<[u8; 4], std::io::Error>)
    ensures
        r is Ok <==> pos + 12 <= stream@.len(),
        r matches Ok(tag) ==> tag@ == tag_at(stream@, pos + 8),
{
    let mut cursor = std::io::Cursor::new(stream);
    let chunk = riff::Chunk::read(&mut cursor, pos)?;
    Ok(chunk.read_type(&mut cursor)?.value)
}

/// Whether two tags hold the same bytes.
pub fn same_tag(a: &[u8; 4], b: &[u8; 4]) -> (same: bool)
    ensures
        same == (a@ == b@),
{
    let same = a[0] == b[0] && a[1] == b[1] && a[2] == b[2] && a[3] == b[3];
    assert(same == (a@ =~= b@));
    same
}

} // verus!
