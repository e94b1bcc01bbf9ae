use mumuse::messages::{Data, Raw, Status};
use mumuse::midi::{
    chord_off, chord_on, chord_plan, get_port_index_by_name, note_off, note_on, note_plan, Action,
};
use mumuse::music::{Chord, Letter, Note};

#[test]
fn note_messages_carry_key_and_velocity() {
    let note = Note::new(Letter::Eb, 3);
    assert_eq!(note_on(&note, 100), Some([0x90, 60, 100]));
    assert_eq!(note_off(&note, 0), Some([0x80, 60, 0]));
    assert_eq!(note_on(&Note::new(Letter::C, 9), 100), None);
    assert_eq!(note_off(&Note::new(Letter::C, 9), 100), None);
}

#[test]
fn chord_messages_follow_the_notes() {
    let chord = Chord::from_str(vec!["C4", "E4", "G4", "B4"]).unwrap();
    assert_eq!(
        chord_on(&chord, 127),
        Some(vec![[0x90, 69, 127], [0x90, 73, 127], [0x90, 76, 127], [0x90, 80, 127]])
    );
    assert_eq!(
        chord_off(&chord, 127),
        Some(vec![[0x80, 69, 127], [0x80, 73, 127], [0x80, 76, 127], [0x80, 80, 127]])
    );
    let too_high = Chord::from_str(vec!["C4", "E9"]).unwrap();
    assert_eq!(chord_on(&too_high, 127), None);
    assert_eq!(chord_off(&too_high, 127), None);
    assert_eq!(chord_on(&Chord::new(vec![]), 1), Some(vec![]));
}

#[test]
fn what_is_sent_decodes_to_the_note() {
    let note = Note::new(Letter::G, 2);
    let bytes = note_on(&note, 90).unwrap();
    let midi = Raw::from_bytes(0, &bytes).unwrap().parse().unwrap();
    assert_eq!(midi.status, Status::NoteOn);
    assert_eq!(midi.channel, 0);
    assert_eq!(midi.data[1], Data::Velocity(90));
    assert_eq!(Note::from_key_number(&midi.data[0]), Some(note));
}

#[test]
fn port_is_found_by_name() {
    let names = vec!["Through".to_string(), "KeyStep".to_string(), "KeyStep".to_string()];
    assert_eq!(get_port_index_by_name(&names, &"KeyStep".to_string()), Some(1));
    assert_eq!(get_port_index_by_name(&names, &"Through".to_string()), Some(0));
    assert_eq!(get_port_index_by_name(&names, &"Keystep".to_string()), None);
    assert_eq!(get_port_index_by_name(&vec![], &"KeyStep".to_string()), None);
}

#[test]
fn a_note_is_played_on_then_off() {
    let plan = note_plan(&Note::new(Letter::C, 4), 100, 127).unwrap();
    assert_eq!(
        plan,
        vec![Action::Send([0x90, 69, 127]), Action::Wait(100), Action::Send([0x80, 69, 127])]
    );
    assert_eq!(note_plan(&Note::new(Letter::C, 200), 100, 127), None);
}

#[test]
fn a_chord_is_played_all_on_then_all_off() {
    let chord = Chord::from_str(vec!["C4", "E4"]).unwrap();
    let plan = chord_plan(&chord, 500, 64).unwrap();
    assert_eq!(
        plan,
        vec![
            Action::Send([0x90, 69, 64]),
            Action::Send([0x90, 73, 64]),
            Action::Wait(500),
            Action::Send([0x80, 69, 64]),
            Action::Send([0x80, 73, 64]),
        ]
    );
    assert_eq!(chord_plan(&Chord::new(vec![]), 5, 1), Some(vec![Action::Wait(5)]));
    let too_high = Chord::from_str(vec!["C4", "E9"]).unwrap();
    assert_eq!(chord_plan(&too_high, 5, 1), None);
}
