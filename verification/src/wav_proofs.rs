//! What holds of a WAV stream after its sampler record was read or written.

use crate::chunk::{tag_at, u32_le};
use crate::error::Error;
use crate::wav::{
    appended, declared_end, is_record, is_wave, le_bytes, lemma_located_within,
    lemma_size_written, locate, locate_from, next_chunk, overwritten, record_at, sampler_record,
    smpl_tag, RECORD_CONTENTS_LEN, RECORD_LEN,
};
use vstd::prelude::*;

verus! {

/// Whether the chunks of `s` from `cur` on follow one another up to `end`
/// and the last of them ends there, its padding included.
pub open spec fn tiled(s: Seq<u8>, cur: int, end: int) -> bool
    decreases end + 1 - cur,
{
    if cur >= end {
        cur == end
    } else {
        &&& cur + 8 <= end
        &&& cur + 8 + u32_le(s, cur + 4) <= end
        &&& tiled(s, next_chunk(s, cur), end)
    }
}

/// Whether `s` is a WAV stream that ends where it declares, with sub-chunks
/// that fill it to the end.
pub open spec fn is_tight(s: Seq<u8>) -> bool {
    is_wave(s) && declared_end(s) == s.len() && tiled(s, 12, s.len() as int)
}

/// A record written into a stream is the record read back from there.
pub proof fn lemma_read_written_record(s: Seq<u8>, at: int, record: Seq<u8>)
    requires
        is_record(record),
        0 <= at,
        at + RECORD_LEN <= s.len(),
    ensures
        record_at(overwritten(s, at, record), at) == Some(record),
{
    let written = overwritten(s, at, record);
    assert(tag_at(written, at) =~= tag_at(record, 0));
    assert(written.subrange(at, at + RECORD_LEN) =~= record);
}

/// The bytes of a record, read as a record, give the record.
pub proof fn lemma_record_round_trip(record: Seq<u8>)
    requires
        is_record(record),
    ensures
        record_at(record, 0) == Some(record),
{
    assert(record.subrange(0, RECORD_LEN as int) =~= record);
}

/// Two streams that hold the same bytes before `at` and the same tag at `at`,
/// where the first chunk tagged `smpl` after `cur` starts, have that chunk at
/// `at` both.
proof fn lemma_walk_finds_same(s: Seq<u8>, t: Seq<u8>, cur: int, end: int, at: u64)
    requires
        0 <= cur,
        end <= u64::MAX,
        s.len() == t.len(),
        locate_from(s, cur, end, smpl_tag()) == Ok::<Option<u64>, Error>(Some(at)),
        forall|i: int| 0 <= i < at + 4 ==> s[i] == t[i],
    ensures
        locate_from(t, cur, end, smpl_tag()) == Ok::<Option<u64>, Error>(Some(at)),
    decreases end + 1 - cur,
{
    lemma_located_within(s, cur, end, smpl_tag());
    assert(tag_at(t, cur) =~= tag_at(s, cur)) by {
        if cur < at {
            lemma_located_within(s, next_chunk(s, cur), end, smpl_tag());
        }
    }
    if cur < at {
        lemma_located_within(s, next_chunk(s, cur), end, smpl_tag());
        assert(u32_le(t, cur + 4) == u32_le(s, cur + 4));
        lemma_walk_finds_same(s, t, next_chunk(s, cur), end, at);
    }
}

/// A record written over the sampler record of a stream is the sampler
/// record of the stream from then on.
pub proof fn lemma_rewritten_record_is_found(s: Seq<u8>, offset: u64, record: Seq<u8>)
    requires
        locate(s, smpl_tag()) == Ok::<Option<u64>, Error>(Some(offset)),
        record_at(s, offset as int) is Some,
        is_record(record),
    ensures
        locate(overwritten(s, offset as int, record), smpl_tag()) == locate(s, smpl_tag()),
        sampler_record(overwritten(s, offset as int, record)) == Ok::<Option<Seq<u8>>, Error>(
            Some(record),
        ),
        is_wave(s) ==> is_wave(overwritten(s, offset as int, record)),
{
    let t = overwritten(s, offset as int, record);
    lemma_located_within(s, 12, declared_end(s), smpl_tag());
    assert forall|i: int| 0 <= i < offset + 4 implies s[i] == t[i] by {
        if offset <= i {
            assert(tag_at(s, offset as int)[i - offset] == tag_at(record, 0)[i - offset]);
        }
    }
    assert(u32_le(t, 4) == u32_le(s, 4));
    lemma_walk_finds_same(s, t, 12, declared_end(s), offset);
    lemma_read_written_record(s, offset as int, record);
    assert(tag_at(t, 8) =~= tag_at(s, 8));
}

/// Two streams that hold the same bytes from `from` on are walked alike from
/// any offset at or after `from`.
proof fn lemma_walk_same_from(
    s: Seq<u8>,
    t: Seq<u8>,
    cur: int,
    end: int,
    id: Seq<u8>,
    from: int,
)
    requires
        0 <= from <= cur,
        s.len() == t.len(),
        forall|i: int| from <= i < s.len() ==> s[i] == t[i],
    ensures
        locate_from(t, cur, end, id) == locate_from(s, cur, end, id),
    decreases end + 1 - cur,
{
    if cur < end && cur + 8 <= end && cur + 8 <= s.len() {
        assert(tag_at(t, cur) =~= tag_at(s, cur));
        assert(u32_le(t, cur + 4) == u32_le(s, cur + 4));
        if tag_at(s, cur) != id && cur + 8 + u32_le(s, cur + 4) <= end && cur + 8 + u32_le(
            s,
            cur + 4,
        ) <= s.len() {
            lemma_walk_same_from(s, t, next_chunk(s, cur), end, id, from);
        }
    }
}

/// Two streams that differ only in the contents of the sampler chunk at
/// `at`, the first chunk tagged `smpl` after `cur`, are walked alike.
proof fn lemma_walk_same_through(
    s: Seq<u8>,
    t: Seq<u8>,
    cur: int,
    end: int,
    id: Seq<u8>,
    at: u64,
)
    requires
        0 <= cur,
        end <= u64::MAX,
        s.len() == t.len(),
        locate_from(s, cur, end, smpl_tag()) == Ok::<Option<u64>, Error>(Some(at)),
        forall|i: int| 0 <= i < s.len() && !(at + 8 <= i < at + RECORD_LEN) ==> s[i] == t[i],
        u32_le(s, at + 4) + 8 >= RECORD_LEN,
    ensures
        locate_from(t, cur, end, id) == locate_from(s, cur, end, id),
    decreases end + 1 - cur,
{
    lemma_located_within(s, cur, end, smpl_tag());
    assert(tag_at(t, cur) =~= tag_at(s, cur)) by {
        if cur < at {
            lemma_located_within(s, next_chunk(s, cur), end, smpl_tag());
        }
    }
    assert(u32_le(t, cur + 4) == u32_le(s, cur + 4)) by {
        if cur < at {
            lemma_located_within(s, next_chunk(s, cur), end, smpl_tag());
        }
    }
    if tag_at(s, cur) != id && cur + 8 + u32_le(s, cur + 4) <= end && cur + 8 + u32_le(s, cur + 4)
        <= s.len() {
        if cur == at {
            lemma_walk_same_from(s, t, next_chunk(s, cur), end, id, at + RECORD_LEN);
        } else {
            lemma_walk_same_through(s, t, next_chunk(s, cur), end, id, at);
        }
    }
}

/// Writing over the sampler record of a stream moves no sub-chunk: every
/// tag is found where it was found before, and a walk that failed fails in
/// the same way.
///
/// This holds where what is written keeps the tag and the length of the
/// sampler chunk, the first eight bytes of the record, and where the chunk
/// declares the 36 bytes of contents that a record spans, or more: a shorter
/// chunk has the header of the next chunk among the bytes of the record.
pub proof fn lemma_rewrite_keeps_layout(s: Seq<u8>, offset: u64, record: Seq<u8>, id: Seq<u8>)
    requires
        locate(s, smpl_tag()) == Ok::<Option<u64>, Error>(Some(offset)),
        record_at(s, offset as int) is Some,
        record.len() == RECORD_LEN,
        record.subrange(0, 8) == s.subrange(offset as int, offset + 8),
        u32_le(s, offset + 4) >= RECORD_CONTENTS_LEN,
    ensures
        locate(overwritten(s, offset as int, record), id) == locate(s, id),
        overwritten(s, offset as int, record).len() == s.len(),
        forall|i: int|
            0 <= i < s.len() && !(offset + 8 <= i < offset + RECORD_LEN) ==> overwritten(
                s,
                offset as int,
                record,
            )[i] == s[i],
{
    let t = overwritten(s, offset as int, record);
    lemma_located_within(s, 12, declared_end(s), smpl_tag());
    assert forall|i: int| 0 <= i < s.len() && !(offset + 8 <= i < offset + RECORD_LEN) implies t[i]
        == s[i] by {
        if offset <= i < offset + 8 {
            let k = i - offset;
            assert(record.subrange(0, 8)[k] == record[k]);
            assert(s.subrange(offset as int, offset + 8)[k] == s[i]);
        }
    }
    assert(u32_le(t, 4) == u32_le(s, 4));
    lemma_walk_same_through(s, t, 12, declared_end(s), id, offset);
}

/// In a tight stream without a sampler chunk, to which a record was
/// appended, the walk finds the record where the stream ended before.
proof fn lemma_walk_reaches_appended(s: Seq<u8>, t: Seq<u8>, cur: int, record: Seq<u8>)
    requires
        12 <= cur,
        s.len() + RECORD_LEN <= u64::MAX,
        tiled(s, cur, s.len() as int),
        locate_from(s, cur, s.len() as int, smpl_tag()) == Ok::<Option<u64>, Error>(
            None,
        ),
        is_record(record),
        t.len() == s.len() + RECORD_LEN,
        forall|i: int| 12 <= i < s.len() ==> t[i] == s[i],
        forall|k: int| 0 <= k < RECORD_LEN ==> t[s.len() + k] == record[k],
    ensures
        locate_from(t, cur, s.len() + RECORD_LEN, smpl_tag()) == Ok::<
            Option<u64>,
            Error,
        >(Some(s.len() as u64)),
    decreases s.len() + 1 - cur,
{
    if cur >= s.len() {
        assert(tag_at(t, cur) =~= tag_at(record, 0));
    } else {
        assert(tag_at(t, cur) =~= tag_at(s, cur));
        assert(u32_le(t, cur + 4) == u32_le(s, cur + 4));
        lemma_walk_reaches_appended(s, t, next_chunk(s, cur), record);
    }
}

/// A tight stream to which a record of 36 bytes of contents was appended is
/// tiled up to its new end.
proof fn lemma_appended_is_tiled(s: Seq<u8>, t: Seq<u8>, cur: int, record: Seq<u8>)
    requires
        12 <= cur,
        tiled(s, cur, s.len() as int),
        record.len() == RECORD_LEN,
        u32_le(record, 4) == RECORD_CONTENTS_LEN,
        t.len() == s.len() + RECORD_LEN,
        forall|i: int| 12 <= i < s.len() ==> t[i] == s[i],
        forall|k: int| 0 <= k < RECORD_LEN ==> t[s.len() + k] == record[k],
    ensures
        tiled(t, cur, s.len() + RECORD_LEN),
    decreases s.len() + 1 - cur,
{
    if cur >= s.len() {
        assert(u32_le(t, cur + 4) == u32_le(record, 4));
        assert(next_chunk(t, cur) == s.len() + RECORD_LEN);
        assert(tiled(t, next_chunk(t, cur), s.len() + RECORD_LEN));
    } else {
        assert(u32_le(t, cur + 4) == u32_le(s, cur + 4));
        lemma_appended_is_tiled(s, t, next_chunk(s, cur), record);
    }
}

/// After a record was appended to a tight stream that had no sampler chunk,
/// the stream declares 44 bytes more than before, and its sampler chunk is
/// found where the stream ended before. Where the record declares 36 bytes of
/// contents, as a new record does, the stream is tight again.
///
/// A stream that is not tight may hide the record from the walk: one that
/// declares less than it holds, or whose last sub-chunk has an odd length and
/// no padding.
pub proof fn lemma_append_then_locate(s: Seq<u8>, record: Seq<u8>)
    requires
        is_tight(s),
        locate(s, smpl_tag()) == Ok::<Option<u64>, Error>(None),
        is_record(record),
        u32_le(s, 4) + RECORD_LEN <= u32::MAX,
    ensures
        u32_le(appended(s, record), 4) == u32_le(s, 4) + RECORD_LEN,
        appended(s, record).len() == s.len() + RECORD_LEN,
        locate(appended(s, record), smpl_tag()) == Ok::<Option<u64>, Error>(
            Some(s.len() as u64),
        ),
        record_at(appended(s, record), s.len() as int) == Some(record),
        u32_le(record, 4) == RECORD_CONTENTS_LEN ==> is_tight(appended(s, record)),
{
    let size = (u32_le(s, 4) + RECORD_LEN) as u32;
    let t = appended(s, record);
    lemma_size_written(s + record, size);
    assert(tag_at(s + record, 8) =~= tag_at(s, 8));
    lemma_walk_reaches_appended(s, t, 12, record);
    assert(tag_at(t, s.len() as int) =~= tag_at(record, 0));
    assert(t.subrange(s.len() as int, s.len() + RECORD_LEN) =~= record);
    if u32_le(record, 4) == RECORD_CONTENTS_LEN {
        lemma_appended_is_tiled(s, t, 12, record);
    }
}

/// The declared size of a stream after an append is the size before it and
/// the length of the record, whatever the stream holds.
pub proof fn lemma_append_grows_size(s: Seq<u8>, record: Seq<u8>)
    requires
        s.len() >= 12,
        record.len() == RECORD_LEN,
        u32_le(s, 4) + RECORD_LEN <= u32::MAX,
    ensures
        u32_le(appended(s, record), 4) == u32_le(s, 4) + RECORD_LEN,
        appended(s, record).len() == s.len() + RECORD_LEN,
        is_wave(s) ==> is_wave(appended(s, record)),
        forall|i: int| 8 <= i < s.len() ==> appended(s, record)[i] == s[i],
        appended(s, record).subrange(s.len() as int, s.len() + RECORD_LEN) == record,
{
    let size = (u32_le(s, 4) + RECORD_LEN) as u32;
    lemma_size_written(s + record, size);
    assert(tag_at(s + record, 8) =~= tag_at(s, 8));
    assert(appended(s, record).subrange(s.len() as int, s.len() + RECORD_LEN) =~= record);
    assert(le_bytes(size as int).len() == 4);
}

} // verus!
