use smplinfo::error::Error;
use smplinfo::midi::Note;
use smplinfo::wav::{SamplerChunk, Update, Wav};

fn chunk(id: &[u8; 4], contents: &[u8]) -> Vec<u8> {
    let mut bytes = id.to_vec();
    bytes.extend_from_slice(&(contents.len() as u32).to_le_bytes());
    bytes.extend_from_slice(contents);
    if contents.len() % 2 == 1 {
        bytes.push(0);
    }
    bytes
}

fn wave(chunks: &[Vec<u8>]) -> Vec<u8> {
    let mut contents = b"WAVE".to_vec();
    for c in chunks {
        contents.extend_from_slice(c);
    }
    let mut bytes = b"RIFF".to_vec();
    bytes.extend_from_slice(&(contents.len() as u32).to_le_bytes());
    bytes.extend_from_slice(&contents);
    bytes
}

fn smpl(note: u8) -> Vec<u8> {
    let mut contents = vec![0u8; 36];
    contents[12] = note;
    chunk(b"smpl", &contents)
}

#[test]
fn open_checks_the_type() {
    assert!(Wav::new(wave(&[])).is_ok());
    let mut other = wave(&[]);
    other[8..12].copy_from_slice(b"AVI ");
    assert_eq!(Wav::new(other).err(), Some(Error::NotAContainer));
    assert_eq!(Wav::new(Vec::new()).err(), Some(Error::NotAContainer));
    assert_eq!(Wav::new(b"RIFF\x04\0\0\0WAV".to_vec()).err(), Some(Error::NotAContainer));
}

#[test]
fn finds_the_first_chunk_with_the_tag() {
    let file = wave(&[chunk(b"fmt ", &[1; 16]), chunk(b"data", &[2; 5]), smpl(60), smpl(61)]);
    let wav = Wav::new(file).unwrap();
    assert_eq!(wav.find_chunk_offset(b"fmt "), Ok(Some(12)));
    assert_eq!(wav.find_chunk_offset(b"data"), Ok(Some(36)));
    assert_eq!(wav.find_chunk_offset(b"smpl"), Ok(Some(50)));
    assert_eq!(wav.find_chunk_offset(b"LIST"), Ok(None));
    assert_eq!(wav.get_sampler_chunk().unwrap().unwrap().midi_unity_note(), Note::from(60));
}

#[test]
fn rewrites_a_record_in_place() {
    let file = wave(&[chunk(b"fmt ", &[1; 16]), smpl(60), chunk(b"data", &[2; 6])]);
    let mut wav = Wav::new(file.clone()).unwrap();
    let tags: [&[u8; 4]; 5] = [b"fmt ", b"smpl", b"data", b"LIST", b"RIFF"];
    let before = tags.map(|tag| wav.find_chunk_offset(tag));
    assert_eq!(before[2], Ok(Some(80)));
    let update = wav.update_sampler_chunk(|c| c.set_midi_unity_note(Note::from(72)));
    assert_eq!(update, Ok(Update::Rewritten { offset: 36 }));
    let mut expected = file;
    expected[36 + 20] = 72;
    assert_eq!(wav.bytes(), &expected[..]);
    assert_eq!(tags.map(|tag| wav.find_chunk_offset(tag)), before);
    assert_eq!(wav.get_sampler_chunk().unwrap().unwrap().midi_unity_note(), Note::from(72));
}

#[test]
fn appends_a_record_and_grows_the_size() {
    let file = wave(&[chunk(b"fmt ", &[1; 16]), chunk(b"data", &[2; 6])]);
    let old_len = file.len();
    let mut wav = Wav::new(file.clone()).unwrap();
    assert_eq!(wav.get_sampler_chunk().unwrap().map(|c| c.midi_unity_note()), None);
    let update = wav.update_sampler_chunk(|c| c.set_midi_unity_note(Note::from(48)));
    assert_eq!(update, Ok(Update::Appended { offset: old_len as u64 }));
    assert_eq!(wav.declared_size() as usize, old_len - 8 + 44);
    assert_eq!(wav.bytes().len(), old_len + 44);
    assert_eq!(&wav.bytes()[4..8], &((old_len - 8 + 44) as u32).to_le_bytes());
    assert_eq!(&wav.bytes()[8..old_len], &file[8..]);
    let mut record = SamplerChunk::default();
    record.set_midi_unity_note(Note::from(48));
    assert_eq!(&wav.bytes()[old_len..], record.as_ref());
    assert_eq!(wav.find_chunk_offset(b"smpl"), Ok(Some(old_len as u64)));
    assert_eq!(wav.get_sampler_chunk().unwrap().unwrap().midi_unity_note(), Note::from(48));
}

#[test]
fn a_walk_that_runs_off_the_stream_is_truncated() {
    let mut file = wave(&[chunk(b"fmt ", &[1; 16]), chunk(b"data", &[2; 8])]);
    file.truncate(40);
    let wav = Wav::new(file).unwrap();
    assert_eq!(wav.find_chunk_offset(b"fmt "), Ok(Some(12)));
    assert_eq!(wav.find_chunk_offset(b"data"), Err(Error::Truncated));
    assert_eq!(wav.get_sampler_chunk().err(), Some(Error::Truncated));
    let mut cut = wave(&[chunk(b"fmt ", &[1; 16]), chunk(b"data", &[2; 8])]);
    cut.truncate(50);
    let wav = Wav::new(cut).unwrap();
    assert_eq!(wav.find_chunk_offset(b"data"), Ok(Some(36)));
    assert_eq!(wav.find_chunk_offset(b"smpl"), Err(Error::Truncated));
}

#[test]
fn a_chunk_that_reaches_past_the_container_is_malformed() {
    let mut file = wave(&[chunk(b"fmt ", &[1; 16]), chunk(b"data", &[2; 8])]);
    file[16] = 100;
    let mut wav = Wav::new(file.clone()).unwrap();
    assert_eq!(wav.find_chunk_offset(b"fmt "), Ok(Some(12)));
    assert_eq!(wav.find_chunk_offset(b"data"), Err(Error::Malformed));
    assert_eq!(wav.update_sampler_chunk(|c| c.set_midi_unity_note(Note::from(1))), Err(Error::Malformed));
    assert_eq!(wav.bytes(), &file[..]);
    let mut short = wave(&[chunk(b"fmt ", &[1; 16])]);
    short[4] = 24;
    let wav = Wav::new(short).unwrap();
    assert_eq!(wav.find_chunk_offset(b"data"), Err(Error::Malformed));
}

#[test]
fn a_sampler_chunk_too_short_for_a_record_is_invalid() {
    let file = wave(&[chunk(b"smpl", &[0; 8])]);
    let mut wav = Wav::new(file.clone()).unwrap();
    assert_eq!(wav.find_chunk_offset(b"smpl"), Ok(Some(12)));
    assert_eq!(wav.get_sampler_chunk().err(), Some(Error::InvalidRecord));
    assert_eq!(wav.update_sampler_chunk(|c| c.set_midi_unity_note(Note::from(1))), Err(Error::InvalidRecord));
    assert_eq!(wav.into_inner(), file);
}

#[test]
fn records_are_read_where_they_stand() {
    let file = wave(&[smpl(99)]);
    assert_eq!(SamplerChunk::read(&file, 12).unwrap().midi_unity_note(), Note::from(99));
    assert_eq!(SamplerChunk::read(&file, 12).unwrap().as_ref(), &file[12..56]);
    assert_eq!(SamplerChunk::read(&file, 0).err(), Some(Error::InvalidRecord));
    assert_eq!(SamplerChunk::read(&file, 13).err(), Some(Error::InvalidRecord));
    assert_eq!(SamplerChunk::read(&file, u64::MAX).err(), Some(Error::InvalidRecord));
    assert_eq!(SamplerChunk::read(&file[..55], 12).err(), Some(Error::InvalidRecord));
}

#[test]
fn a_new_record_is_an_empty_sampler_chunk() {
    let record = SamplerChunk::default();
    let mut expected = vec![0u8; 44];
    expected[..4].copy_from_slice(b"smpl");
    expected[4] = 36;
    assert_eq!(record.as_ref(), &expected[..]);
    assert_eq!(record.midi_unity_note(), Note::from(0));
    let read = SamplerChunk::read(record.as_ref(), 0).unwrap();
    assert_eq!(read.as_ref(), record.as_ref());
}

#[test]
fn a_stream_without_chunks_gets_its_first() {
    let mut wav = Wav::new(wave(&[])).unwrap();
    assert_eq!(wav.declared_size(), 4);
    assert_eq!(wav.find_chunk_offset(b"smpl"), Ok(None));
    let update = wav.update_sampler_chunk(|c| c.set_midi_unity_note(Note::from(127)));
    assert_eq!(update, Ok(Update::Appended { offset: 12 }));
    assert_eq!(wav.declared_size(), 48);
    assert_eq!(wav.find_chunk_offset(b"smpl"), Ok(Some(12)));
    let again = wav.update_sampler_chunk(|c| c.set_midi_unity_note(Note::from(1)));
    assert_eq!(again, Ok(Update::Rewritten { offset: 12 }));
    assert_eq!(wav.bytes().len(), 56);
    assert_eq!(wav.get_sampler_chunk().unwrap().unwrap().midi_unity_note(), Note::from(1));
}

#[test]
fn padding_after_an_odd_chunk_is_skipped() {
    let file = wave(&[chunk(b"data", &[2; 5]), chunk(b"LIST", &[0; 4])]);
    let wav = Wav::new(file).unwrap();
    assert_eq!(wav.find_chunk_offset(b"LIST"), Ok(Some(26)));
}
