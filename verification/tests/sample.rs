use smplinfo::error::Error;
use smplinfo::midi::Note;
use smplinfo::sample::Sample;
use smplinfo::workspace::Directory;

fn wave_with(chunks: &[(&[u8; 4], Vec<u8>)]) -> Vec<u8> {
    let mut contents = b"WAVE".to_vec();
    for (id, data) in chunks {
        contents.extend_from_slice(&id[..]);
        contents.extend_from_slice(&(data.len() as u32).to_le_bytes());
        contents.extend_from_slice(data);
        if data.len() % 2 == 1 {
            contents.push(0);
        }
    }
    let mut bytes = b"RIFF".to_vec();
    bytes.extend_from_slice(&(contents.len() as u32).to_le_bytes());
    bytes.extend_from_slice(&contents);
    bytes
}

fn smpl_contents(note: u8) -> Vec<u8> {
    let mut contents = vec![0u8; 36];
    contents[12] = note;
    contents
}

#[test]
fn a_sample_knows_its_path_name_and_note() {
    let file = wave_with(&[(b"fmt ", vec![0; 16]), (b"smpl", smpl_contents(45))]);
    let sample = Sample::read("sounds/bass_A1.wav", file).unwrap();
    assert_eq!(sample.path(), "sounds/bass_A1.wav");
    assert_eq!(sample.name(), "bass_A1.wav");
    assert_eq!(sample.note(), Some(&Note::from(45)));
}

#[test]
fn a_sample_without_a_sampler_chunk_has_no_note() {
    let file = wave_with(&[(b"fmt ", vec![0; 16]), (b"data", vec![1, 2, 3])]);
    let sample = Sample::read("kick.wav", file).unwrap();
    assert_eq!(sample.note(), None);
    assert_eq!(sample.name(), "kick.wav");
}

#[test]
fn a_sample_without_a_file_name_is_unknown() {
    let sample = Sample::read("..", wave_with(&[])).unwrap();
    assert_eq!(sample.name(), "<unknown>");
    assert_eq!(sample.path(), "..");
}

#[test]
fn what_is_no_wav_file_is_no_sample() {
    assert_eq!(Sample::read("a.wav", b"RIFF\x04\0\0\0AVI ".to_vec()).err(), Some(Error::NotAContainer));
    assert_eq!(Sample::read("a.wav", Vec::new()).err(), Some(Error::NotAContainer));
    let short = wave_with(&[(b"smpl", vec![0; 8])]);
    assert_eq!(Sample::read("a.wav", short).err(), Some(Error::InvalidRecord));
}

#[test]
fn a_directory_is_named_by_the_end_of_its_path() {
    let directory = Directory::new("samples/drums");
    assert_eq!(directory.name(), "drums");
    assert_eq!(directory.path(), "samples/drums");
    let root = Directory::new("/");
    assert_eq!(root.name(), "<unknown>");
    assert_eq!(root.path(), "/");
}
