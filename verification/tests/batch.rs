use smplinfo::batch::{plan_input, process_file, InputAction, InputKind, Options, Summary};
use smplinfo::error::Error;
use smplinfo::format::{FormatString, Syntax};
use smplinfo::midi::Note;
use smplinfo::wav::{Update, Wav};

fn chunk_bytes(id: &[u8; 4], contents: &[u8]) -> Vec<u8> {
    let mut bytes = id.to_vec();
    bytes.extend_from_slice(&(contents.len() as u32).to_le_bytes());
    bytes.extend_from_slice(contents);
    if contents.len() % 2 == 1 {
        bytes.push(0);
    }
    bytes
}

fn wave_of(chunks: &[Vec<u8>]) -> Vec<u8> {
    let mut contents = b"WAVE".to_vec();
    for c in chunks {
        contents.extend_from_slice(c);
    }
    let mut bytes = b"RIFF".to_vec();
    bytes.extend_from_slice(&(contents.len() as u32).to_le_bytes());
    bytes.extend_from_slice(&contents);
    bytes
}

fn sampler(note: u8) -> Vec<u8> {
    let mut contents = vec![0u8; 36];
    contents[12] = note;
    chunk_bytes(b"smpl", &contents)
}

fn options() -> Options {
    Options {
        recursive: false,
        dry_run: false,
        rename: None,
        root_note: None,
        root_note_from_filename: false,
    }
}

#[test]
fn reading_changes_nothing() {
    let file = wave_of(&[chunk_bytes(b"fmt ", &[0; 16]), sampler(60)]);
    let done = process_file(&options(), "kick.wav", file.clone()).unwrap();
    assert_eq!(done.current_root_note, Some(Note::from(60)));
    assert_eq!(done.new_root_note, None);
    assert_eq!(done.update, None);
    assert_eq!(done.new_name, None);
    assert_eq!(done.file, file);
}

#[test]
fn a_root_note_is_set_in_place() {
    let file = wave_of(&[chunk_bytes(b"fmt ", &[0; 16]), sampler(60), chunk_bytes(b"data", &[7; 4])]);
    let mut opts = options();
    opts.root_note = Some(Note::from(72));
    assert!(opts.write());
    let done = process_file(&opts, "kick.wav", file.clone()).unwrap();
    assert_eq!(done.current_root_note, Some(Note::from(60)));
    assert_eq!(done.new_root_note, Some(Note::from(72)));
    assert_eq!(done.update, Some(Update::Rewritten { offset: 36 }));
    let mut expected = file;
    expected[36 + 20] = 72;
    assert_eq!(done.file, expected);
}

#[test]
fn a_root_note_is_appended_where_there_was_none() {
    let file = wave_of(&[chunk_bytes(b"fmt ", &[0; 16]), chunk_bytes(b"data", &[7; 4])]);
    let mut opts = options();
    opts.root_note = Some(Note::from(33));
    let done = process_file(&opts, "bass.wav", file.clone()).unwrap();
    assert_eq!(done.current_root_note, None);
    assert_eq!(done.update, Some(Update::Appended { offset: file.len() as u64 }));
    assert_eq!(done.file.len(), file.len() + 44);
    let wav = Wav::new(done.file).unwrap();
    assert_eq!(wav.declared_size() as usize, file.len() - 8 + 44);
    assert_eq!(wav.get_sampler_chunk().unwrap().unwrap().midi_unity_note(), Note::from(33));
}

#[test]
fn the_note_in_the_file_name_comes_before_the_note_asked_for() {
    let file = wave_of(&[sampler(10)]);
    let mut opts = options();
    opts.root_note = Some(Note::from(5));
    opts.root_note_from_filename = true;
    let done = process_file(&opts, "kick_C3_v2.wav", file.clone()).unwrap();
    assert_eq!(done.new_root_note, Some(Note::from(60)));
    let done = process_file(&opts, "C3_or_D3.wav", file.clone()).unwrap();
    assert_eq!(done.new_root_note, Some(Note::from(5)));
    opts.root_note = None;
    assert!(opts.write());
    let done = process_file(&opts, "kick.wav", file.clone()).unwrap();
    assert_eq!(done.new_root_note, None);
    assert_eq!(done.update, None);
    assert_eq!(done.file, file);
}

#[test]
fn a_dry_run_writes_nothing() {
    let file = wave_of(&[sampler(10)]);
    let mut opts = options();
    opts.dry_run = true;
    opts.root_note = Some(Note::from(61));
    opts.rename = Some(FormatString::from_str("s_%n_%m.wav").unwrap());
    let done = process_file(&opts, "s.wav", file.clone()).unwrap();
    assert_eq!(done.new_root_note, Some(Note::from(61)));
    assert_eq!(done.update, None);
    assert_eq!(done.file, file);
    assert_eq!(done.new_name.as_deref(), Some("s_C#3_061.wav"));
}

#[test]
fn a_file_is_renamed_only_to_another_name() {
    let file = wave_of(&[sampler(60)]);
    let mut opts = options();
    opts.rename = Some(FormatString::parse("kick_%n.wav", Syntax::Permissive).unwrap());
    assert!(!opts.write());
    let done = process_file(&opts, "kick.wav", file.clone()).unwrap();
    assert_eq!(done.new_name.as_deref(), Some("kick_C3.wav"));
    let done = process_file(&opts, "kick_C3.wav", file.clone()).unwrap();
    assert_eq!(done.new_name, None);
    let bare = wave_of(&[chunk_bytes(b"data", &[1, 2])]);
    let done = process_file(&opts, "kick.wav", bare).unwrap();
    assert_eq!(done.new_name.as_deref(), Some("kick_.wav"));
}

#[test]
fn a_file_that_cannot_be_read_fails() {
    let opts = options();
    assert_eq!(process_file(&opts, "a.wav", b"not a wave file".to_vec()).err(), Some(Error::NotAContainer));
    let mut truncated = wave_of(&[chunk_bytes(b"data", &[0; 10]), sampler(1)]);
    truncated.truncate(34);
    assert_eq!(process_file(&opts, "a.wav", truncated).err(), Some(Error::Truncated));
    let mut malformed = wave_of(&[chunk_bytes(b"data", &[0; 10])]);
    malformed[16] = 200;
    assert_eq!(process_file(&opts, "a.wav", malformed).err(), Some(Error::Malformed));
    let mut cut = wave_of(&[sampler(1)]);
    cut.truncate(30);
    assert_eq!(process_file(&opts, "a.wav", cut).err(), Some(Error::InvalidRecord));
}

#[test]
fn inputs_are_planned_by_their_kind() {
    assert_eq!(plan_input(InputKind::File, false), InputAction::Process);
    assert_eq!(plan_input(InputKind::File, true), InputAction::Process);
    assert_eq!(plan_input(InputKind::Directory, false), InputAction::Expand { recursive: false });
    assert_eq!(plan_input(InputKind::Directory, true), InputAction::Expand { recursive: true });
    assert_eq!(plan_input(InputKind::Other, true), InputAction::Skip);
}

#[test]
fn one_failure_makes_the_run_fail() {
    let mut summary = Summary::new();
    assert_eq!(summary.exit_code(), 0);
    summary.record(false);
    summary.record(false);
    assert_eq!(summary, Summary { processed: 2, failed: 0 });
    assert_eq!(summary.exit_code(), 0);
    summary.record(true);
    summary.record(false);
    assert_eq!(summary, Summary { processed: 4, failed: 1 });
    assert_eq!(summary.exit_code(), 1);
    let mut full = Summary { processed: u64::MAX, failed: u64::MAX };
    full.record(true);
    assert_eq!(full, Summary { processed: u64::MAX, failed: u64::MAX });
}
