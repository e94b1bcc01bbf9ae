use mumuse::music::scale::Scale;
use mumuse::music::{Interval, Letter, Note};

#[test]
fn get_notes() {
    let root = Note::from_str("C0").unwrap();
    let intervals = vec![Interval::Unison, Interval::MajorSecond];
    let scale = Scale::new(root, intervals);
    let notes = scale.notes();
    assert_eq!(notes[0].letter, Letter::C);
    assert_eq!(notes[1].letter, Letter::D);
}

#[test]
fn get_one() {
    let root = Note::from_str("C0").unwrap();
    let major_scale = Scale::major(root);
    let one_chord = major_scale.one(3);
    assert_eq!(one_chord.notes[0].letter, Letter::C);
    assert_eq!(one_chord.notes[1].letter, Letter::E);
    assert_eq!(one_chord.notes[2].letter, Letter::G);
}

#[test]
fn get_two() {
    let root = Note::from_str("C0").unwrap();
    let major_scale = Scale::major(root);
    let two_chord = major_scale.two(3);
    assert_eq!(two_chord.notes[0].letter, Letter::D);
    assert_eq!(two_chord.notes[1].letter, Letter::F);
    assert_eq!(two_chord.notes[2].letter, Letter::A);
}

#[test]
fn major() {
    let root = Note::from_str("C0").unwrap();
    let major_scale = Scale::major(root);
    let c_major_scale = [
        Letter::C,
        Letter::D,
        Letter::E,
        Letter::F,
        Letter::G,
        Letter::A,
        Letter::B,
    ];
    for i in 0..7 {
        assert_eq!(major_scale.notes()[i as usize].letter, c_major_scale[i]);
    }
}

#[test]
fn minor() {
    let root = Note::from_str("A0").unwrap();
    let major_scale = Scale::minor(root);
    let a_minor_scale = [
        Letter::A,
        Letter::B,
        Letter::C,
        Letter::D,
        Letter::E,
        Letter::F,
        Letter::G,
    ];
    for i in 0..7 {
        assert_eq!(major_scale.notes()[i as usize].letter, a_minor_scale[i]);
    }
}

#[test]
fn minor_scale_crosses_into_the_next_octave() {
    let notes = Scale::minor(Note::new(Letter::A, 0)).notes();
    let octaves: Vec<u8> = notes.iter().map(|n| n.octave).collect();
    assert_eq!(octaves, vec![0, 0, 1, 1, 1, 1, 1]);
}

#[test]
fn harmonic_minor_raises_the_seventh() {
    let notes = Scale::minor_harmonic(Note::new(Letter::A, 0)).notes();
    assert_eq!(notes.len(), 7);
    assert_eq!(notes[5], Note::new(Letter::F, 1));
    assert_eq!(notes[6], Note::new(Letter::Ab, 1));
}

#[test]
fn degree_chords_by_thirds() {
    let scale = Scale::major(Note::new(Letter::C, 0));
    let letters = |notes: &Vec<Note>| notes.iter().map(|n| n.letter).collect::<Vec<Letter>>();
    assert_eq!(letters(&scale.three(3).notes), vec![Letter::E, Letter::G, Letter::B]);
    assert_eq!(letters(&scale.four(3).notes), vec![Letter::F, Letter::A, Letter::C]);
    assert_eq!(letters(&scale.five(3).notes), vec![Letter::G, Letter::B, Letter::D]);
    assert_eq!(letters(&scale.six(3).notes), vec![Letter::A, Letter::C, Letter::E]);
    assert_eq!(letters(&scale.seven(3).notes), vec![Letter::B, Letter::D, Letter::F]);
}

#[test]
fn seven_chord_reaches_the_second_octave() {
    let scale = Scale::major(Note::new(Letter::C, 2));
    let chord = scale.seven(4);
    assert_eq!(
        chord.notes,
        vec![
            Note::new(Letter::B, 2),
            Note::new(Letter::D, 3),
            Note::new(Letter::F, 3),
            Note::new(Letter::A, 3),
        ]
    );
}

#[test]
fn stepping_goes_round_after_two_octaves() {
    let scale = Scale::major(Note::new(Letter::C, 0));
    let notes = scale.build_by_steps(0, 2, 9);
    let expected = vec![
        Note::new(Letter::C, 0),
        Note::new(Letter::E, 0),
        Note::new(Letter::G, 0),
        Note::new(Letter::B, 0),
        Note::new(Letter::D, 1),
        Note::new(Letter::F, 1),
        Note::new(Letter::A, 1),
        Note::new(Letter::C, 0),
        Note::new(Letter::E, 0),
    ];
    assert_eq!(notes, expected);
}

#[test]
fn stepping_starts_anywhere_and_takes_any_stride() {
    let scale = Scale::major(Note::new(Letter::C, 0));
    // Position 15 of 14 is position 1; a stride of 15 is a stride of 1.
    let notes = scale.build_by_steps(15, 15, 3);
    assert_eq!(
        notes,
        vec![Note::new(Letter::D, 0), Note::new(Letter::E, 0), Note::new(Letter::F, 0)]
    );
}

#[test]
fn stepping_through_no_intervals_yields_nothing() {
    let scale = Scale::new(Note::new(Letter::C, 0), vec![]);
    assert_eq!(scale.build_by_steps(0, 2, 5), vec![]);
    assert_eq!(scale.one(3).notes.len(), 0);
    assert_eq!(scale.notes().len(), 0);
}

#[test]
fn scale_is_written_with_its_notes() {
    let scale = Scale::major(Note::new(Letter::C, 0));
    assert_eq!(scale.to_text(), "Scale(C0,D0,E0,F0,G0,A0,B0)");
    assert_eq!(Scale::new(Note::new(Letter::C, 0), vec![]).to_text(), "Scale()");
    let one = Scale::new(Note::new(Letter::B, 9), vec![Interval::Octave]);
    assert_eq!(one.to_text(), "Scale(B10)");
}

#[test]
fn a_stride_of_nothing_repeats_the_note() {
    let scale = Scale::major(Note::new(Letter::C, 0));
    let notes = scale.build_by_steps(4, 0, 3);
    assert_eq!(notes, vec![Note::new(Letter::G, 0); 3]);
}
