use smplinfo::error::Error;
use smplinfo::midi::Note;

#[test]
fn midi_parse() {
    assert_eq!(Note::from_str("0").unwrap(), Note::from(0));
    assert_eq!(Note::from_str("51").unwrap(), Note::from(51));
    assert_eq!(Note::from_str("A0").unwrap(), Note::from(33));
    assert_eq!(Note::from_str("C1").unwrap(), Note::from(36));
}

#[test]
fn midi_display_name() {
    assert_eq!(Note::from(0).to_string(), "C-2");
    assert_eq!(Note::from(11).to_string(), "B-2");
    assert_eq!(Note::from(12).to_string(), "C-1");
    assert_eq!(Note::from(20).to_string(), "G#-1");
    assert_eq!(Note::from(33).to_string(), "A0");
    assert_eq!(Note::from(34).to_string(), "A#0");
    assert_eq!(Note::from(35).to_string(), "B0");
    assert_eq!(Note::from(36).to_string(), "C1");
    assert_eq!(Note::from(60).to_string(), "C3");
    assert_eq!(Note::from(127).to_string(), "G8");
}

#[test]
fn every_note_name_parses_back_to_its_note() {
    for value in 0..=255u8 {
        let note = Note::from(value);
        assert_eq!(Note::from_str(&note.to_string()), Ok(note));
    }
}

#[test]
fn note_names_with_signed_octaves() {
    assert_eq!(Note::from_str("C-2"), Ok(Note::from(0)));
    assert_eq!(Note::from_str("G#-1"), Ok(Note::from(20)));
    assert_eq!(Note::from_str("C+3"), Ok(Note::from(60)));
    assert_eq!(Note::from_str("D#19"), Ok(Note::from(255)));
    assert_eq!(Note::from_str("+7"), Ok(Note::from(7)));
    assert_eq!(Note::from_str("007"), Ok(Note::from(7)));
    assert_eq!(Note::from_str("255"), Ok(Note::from(255)));
}

#[test]
fn texts_that_are_no_note() {
    for text in [
        "", "C", "C#", "#3", "H2", "c3", "E#1", "B#1", "C-3", "E19", "256", "-1", "C 3", "C3 ", " 60",
        "C--1", "C3x", "99999999999999999999", "C99999999999999999999", "+", "C+", "C-",
    ] {
        assert_eq!(Note::from_str(text), Err(Error::InvalidNote), "{:?}", text);
    }
}

#[test]
fn notes_are_ordered_by_number() {
    assert!(Note::from(59) < Note::from(60));
    assert!(Note::from(60) <= Note::from(60));
    assert!(Note::from(61) > Note::from(60));
    assert_eq!(Note::from(3).max(Note::from(200)), Note::from(200));
    assert_eq!(u8::from(Note::from(77)), 77);
    assert_eq!(Note::default(), Note::from(0));
}

#[test]
fn error_messages() {
    assert_eq!(Error::InvalidNote.message(), "invalid MIDI note");
    assert_eq!(Error::NotAContainer.message(), "not a WAV file");
    assert_eq!(Error::InvalidRecord.message(), "invalid smpl chunk");
    assert_eq!(Error::InvalidFormat.message(), "invalid format specifier");
}
