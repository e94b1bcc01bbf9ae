use mumuse::messages;
use mumuse::music;
use mumuse::music::{Chord, Interval, Letter, Note, ParseError};

// Tests conversion from Midi to Note
#[test]
fn from_key_number_to_note() {
    for kn in 21..127 {
        let data_kn = messages::Data::KeyNumber(kn);
        let note = match Note::from_key_number(&data_kn) {
            Some(note) => note,
            None => panic!("Oups"),
        };
        assert_eq!(note.letter, music::KEYBOARD[((kn - 21) % 12) as usize]);
        assert_eq!(note.octave, (kn - 21) / 12);
    }
}

#[test]
fn note_from_str() {
    let a = Note::from_str("A0").unwrap();
    assert_eq!(a.letter, Letter::A);
    assert_eq!(a.octave, 0);

    let bb = Note::from_str("Bb2").unwrap();
    assert_eq!(bb.letter, Letter::Bb);
    assert_eq!(bb.octave, 2);
}

#[test]
fn distance_between_notes() {
    let note_1 = Note {
        letter: Letter::C,
        octave: 0,
    };
    let note_2 = Note {
        letter: Letter::E,
        octave: 0,
    };
    let note_3 = Note {
        letter: Letter::E,
        octave: 1,
    };
    let note_4 = Note {
        letter: Letter::B,
        octave: 0,
    };
    let note_5 = Note {
        letter: Letter::C,
        octave: 1,
    };
    assert_eq!(note_1.dist_to(&note_2), 4);
    assert_eq!(note_2.dist_to(&note_1), 4);
    assert_eq!(note_1.dist_to(&note_3), 16);
    assert_eq!(note_3.dist_to(&note_1), 16);
    assert_eq!(note_4.dist_to(&note_5), 1);
}

#[test]
fn chord_from_struct() {
    let note_1 = Note {
        letter: Letter::C,
        octave: 0,
    };
    let note_2 = Note {
        letter: Letter::E,
        octave: 0,
    };
    let note_3 = Note {
        letter: Letter::G,
        octave: 0,
    };
    let chord = Chord::new(vec![note_1, note_2, note_3]);
    assert_eq!(chord.notes.len(), 3);
}

#[test]
fn chord_from_str() {
    let chord = Chord::from_str(vec!["C0", "E1", "G2"]).unwrap();
    assert_eq!(chord.notes[0].letter, Letter::C);
    assert_eq!(chord.notes[1].letter, Letter::E);
    assert_eq!(chord.notes[2].letter, Letter::G);
}

#[test]
fn chord_transition() {
    let cmaj = Chord::from_str(vec!["C0", "E0", "G0"]).unwrap();
    let fmaj = Chord::from_str(vec!["F0", "A0", "C1"]).unwrap();
    assert_eq!(cmaj.notes.len(), 3);
    assert_eq!(fmaj.notes.len(), 3);
}

#[test]
fn key_numbers_outside_the_keyboard_give_no_note() {
    for kn in 0..21 {
        assert_eq!(Note::from_key_number(&messages::Data::KeyNumber(kn)), None);
    }
    for kn in 128..=255 {
        assert_eq!(Note::from_key_number(&messages::Data::KeyNumber(kn)), None);
    }
    assert_eq!(Note::from_key_number(&messages::Data::Velocity(60)), None);
    assert_eq!(
        Note::from_key_number(&messages::Data::KeyNumber(127)),
        Some(Note::new(Letter::Bb, 8))
    );
}

#[test]
fn key_number_round_trip() {
    for kn in 21..=127 {
        let note = Note::from_key_number(&messages::Data::KeyNumber(kn)).unwrap();
        assert_eq!(note.to_key_number(), Some(kn));
    }
    assert_eq!(Note::new(Letter::C, 0).to_key_number(), Some(21));
    assert_eq!(Note::new(Letter::Eb, 3).to_key_number(), Some(60));
    assert_eq!(Note::new(Letter::B, 8).to_key_number(), None);
    assert_eq!(Note::new(Letter::C, 255).to_key_number(), None);
}

#[test]
fn every_letter_is_read() {
    let spellings = ["C", "Db", "D", "Eb", "E", "F", "Gb", "G", "Ab", "A", "Bb", "B"];
    for (i, spelling) in spellings.iter().enumerate() {
        let token = format!("{}4", spelling);
        let note = Note::from_str(&token).unwrap();
        assert_eq!(note, Note::new(music::KEYBOARD[i], 4));
        assert_eq!(note.letter.position() as usize, i);
        assert_eq!(Letter::from_index(i as u8), note.letter);
    }
}

#[test]
fn octave_may_have_several_digits() {
    assert_eq!(Note::from_str("C10"), Ok(Note::new(Letter::C, 10)));
    assert_eq!(Note::from_str("Ab255"), Ok(Note::new(Letter::Ab, 255)));
    assert_eq!(Note::from_str("G007"), Ok(Note::new(Letter::G, 7)));
}

#[test]
fn malformed_tokens_are_refused() {
    assert_eq!(Note::from_str(""), Err(ParseError::Letter));
    assert_eq!(Note::from_str("4"), Err(ParseError::Letter));
    assert_eq!(Note::from_str("H2"), Err(ParseError::Letter));
    assert_eq!(Note::from_str("c2"), Err(ParseError::Letter));
    assert_eq!(Note::from_str("Cb2"), Err(ParseError::Letter));
    assert_eq!(Note::from_str("C#2"), Err(ParseError::Letter));
    assert_eq!(Note::from_str("Bbb1"), Err(ParseError::Letter));
    assert_eq!(Note::from_str("C"), Err(ParseError::Octave));
    assert_eq!(Note::from_str("Bb"), Err(ParseError::Octave));
    assert_eq!(Note::from_str("C2x"), Err(ParseError::Octave));
    assert_eq!(Note::from_str("C256"), Err(ParseError::Octave));
    assert_eq!(Note::from_str("C99999999999999999999"), Err(ParseError::Octave));
    assert_eq!(Note::from_str("C-1"), Err(ParseError::Letter));
}

#[test]
fn distance_is_symmetric_and_linear() {
    let low = Note::new(Letter::Ab, 1);
    let high = Note::new(Letter::D, 4);
    assert_eq!(low.dist_to(&high), 30);
    assert_eq!(high.dist_to(&low), 30);
    assert_eq!(low.dist_to(&low), 0);
    assert_eq!(Note::new(Letter::C, 0).dist_to(&Note::new(Letter::B, 255)), 3071);
}

#[test]
fn adding_an_interval_carries_into_the_octave() {
    let b0 = Note::new(Letter::B, 0);
    assert_eq!(b0.plus(Interval::Unison), b0);
    assert_eq!(b0.plus(Interval::MinorSecond), Note::new(Letter::C, 1));
    assert_eq!(b0.plus(Interval::Octave), Note::new(Letter::B, 1));
    assert_eq!(b0.plus(Interval::MajorFourteenth), Note::new(Letter::Bb, 2));
    assert_eq!(Note::new(Letter::C, 0).plus(Interval::Fifth), Note::new(Letter::G, 0));
    assert_eq!(Note::new(Letter::C, 3).plus_semitones(40), Note::new(Letter::E, 6));
    assert_eq!(Note::new(Letter::A, 0).plus_semitones(0), Note::new(Letter::A, 0));
}

#[test]
fn intervals_count_semitones() {
    assert_eq!(Interval::Unison.to_semitones(), 0);
    assert_eq!(Interval::MajorThird.to_semitones(), 4);
    assert_eq!(Interval::Fifth.to_semitones(), 7);
    assert_eq!(Interval::Octave.to_semitones(), 12);
    assert_eq!(Interval::MajorFourteenth.to_semitones(), 23);
    for n in 0..24 {
        assert_eq!(Interval::from_semitones(n).unwrap().to_semitones() as u32, n);
    }
    assert_eq!(Interval::from_semitones(24), None);
}

#[test]
fn chord_from_tokens_keeps_order() {
    let chord = Chord::from_str(vec!["C0", "E0", "G0"]).unwrap();
    assert_eq!(
        chord.notes,
        vec![Note::new(Letter::C, 0), Note::new(Letter::E, 0), Note::new(Letter::G, 0)]
    );
    assert_eq!(Chord::from_str(vec![]).unwrap().notes, vec![]);
}

#[test]
fn chord_with_a_bad_token_fails() {
    assert_eq!(Chord::from_str(vec!["C0", "X0", "G"]).err(), Some(ParseError::Letter));
    assert_eq!(Chord::from_str(vec!["C0", "E", "X0"]).err(), Some(ParseError::Octave));
}

#[test]
fn inversion_moves_the_lowest_note_on_top() {
    let chord = Chord::from_str(vec!["C0", "E0", "G0"]).unwrap();
    let first = chord.invert(1);
    assert_eq!(
        first.notes,
        vec![Note::new(Letter::E, 0), Note::new(Letter::G, 0), Note::new(Letter::C, 1)]
    );
    let second = chord.invert(2);
    assert_eq!(
        second.notes,
        vec![Note::new(Letter::G, 0), Note::new(Letter::C, 1), Note::new(Letter::E, 1)]
    );
    assert_eq!(chord.invert(0).notes, chord.notes);
    assert_eq!(chord.notes.len(), 3);
}

#[test]
fn as_many_inversions_as_notes_raise_the_chord_an_octave() {
    let chord = Chord::from_str(vec!["F0", "A0", "C1", "E1"]).unwrap();
    assert_eq!(chord.invert(4).notes, chord.plus(Interval::Octave).notes);
    assert_eq!(chord.invert(9).notes[0], Note::new(Letter::A, 2));
    assert_eq!(Chord::new(vec![]).invert(5).notes, vec![]);
}

#[test]
fn chord_plus_interval_moves_every_note() {
    let chord = Chord::from_str(vec!["C0", "E0", "G0"]).unwrap();
    let fifth_up = chord.plus(Interval::Fifth);
    assert_eq!(
        fifth_up.notes,
        vec![Note::new(Letter::G, 0), Note::new(Letter::B, 0), Note::new(Letter::D, 1)]
    );
    assert_eq!(chord.notes[0], Note::new(Letter::C, 0));
}

#[test]
fn plus_sign_adds_an_interval() {
    assert_eq!(Note::new(Letter::A, 3) + Interval::MinorThird, Note::new(Letter::C, 4));
    let chord = Chord::from_str(vec!["C0", "E0", "G0"]).unwrap();
    let octave_up = chord.clone() + Interval::Octave;
    assert_eq!(octave_up.notes, chord.invert(3).notes);
}

#[test]
fn note_is_written_as_it_is_read() {
    assert_eq!(Note::new(Letter::Bb, 2).to_text(), "Bb2");
    assert_eq!(Note::new(Letter::C, 0).to_text(), "C0");
    assert_eq!(Note::new(Letter::Gb, 10).to_text(), "Gb10");
    assert_eq!(Note::new(Letter::A, 105).to_text(), "A105");
    assert_eq!(Note::new(Letter::E, 255).to_text(), "E255");
    for octave in 0..=255 {
        for letter in music::KEYBOARD {
            let note = Note::new(letter, octave);
            assert_eq!(Note::from_str(&note.to_text()), Ok(note));
        }
    }
    assert_eq!(Letter::Db.name(), "Db");
}
