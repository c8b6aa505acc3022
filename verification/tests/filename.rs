use smplinfo::filename::extract_note_from_filename;
use smplinfo::midi::Note;

#[test]
fn a_single_note_token_gives_its_note() {
    assert_eq!(extract_note_from_filename("kick_C3_v2.wav"), Some(Note::from(60)));
    assert_eq!(extract_note_from_filename("C3"), Some(Note::from(60)));
    assert_eq!(extract_note_from_filename("C3.wav"), Some(Note::from(60)));
    assert_eq!(extract_note_from_filename("piano F#2.wav"), Some(Note::from(54)));
    assert_eq!(extract_note_from_filename("bass-A0.wav"), Some(Note::from(33)));
    assert_eq!(extract_note_from_filename("pad_G#-1.wav"), Some(Note::from(20)));
    assert_eq!(extract_note_from_filename("sub.C-2.wav"), Some(Note::from(0)));
    assert_eq!(extract_note_from_filename("lead\tD10"), Some(Note::from(146)));
}

#[test]
fn a_name_without_a_note_token_gives_no_note() {
    for name in [
        "", "a_b.wav", "kick.wav", "kickC3.wav", "C3x.wav", "c3.wav", "H2.wav", "C.wav", "C#.wav",
        "C-.wav", "3C.wav", "A_B.wav", "xC3_.wav", "C3v2.wav",
    ] {
        assert_eq!(extract_note_from_filename(name), None, "{:?}", name);
    }
}

#[test]
fn two_note_tokens_give_no_note() {
    assert_eq!(extract_note_from_filename("C3_to_D4.wav"), None);
    assert_eq!(extract_note_from_filename("C3_C3.wav"), None);
    assert_eq!(extract_note_from_filename("A-1-B2.wav"), None);
    assert_eq!(extract_note_from_filename("E#1_C2.wav"), None);
}

#[test]
fn a_token_that_names_no_note_gives_no_note() {
    assert_eq!(extract_note_from_filename("kick_E#3.wav"), None);
    assert_eq!(extract_note_from_filename("kick_B#3.wav"), None);
    assert_eq!(extract_note_from_filename("kick_C-3.wav"), None);
    assert_eq!(extract_note_from_filename("kick_C99.wav"), None);
    assert_eq!(extract_note_from_filename("kick_G99999999999999999999.wav"), None);
}
