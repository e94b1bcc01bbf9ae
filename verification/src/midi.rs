//! What goes out to a device and how a device is found, as plain values: the
//! bytes of note-on and note-off messages, and the place of a port among the
//! names of the ports.

use crate::messages::{bytes_needed, channel_of, payload_of, status_kind, Data, Status};
use crate::music::{Chord, Note};
use vstd::prelude::*;

verus! {

/// Status byte of a note-on message on the first channel.
pub const NOTE_ON: u8 = 0x90;

/// Status byte of a note-off message on the first channel.
pub const NOTE_OFF: u8 = 0x80;

/// The three bytes that switch a note on or off: the status byte, the key
/// number and the velocity. A note without a key number has no message.
pub open spec fn note_message(status: u8, note: Note, velocity: u8) -> Option<Seq<u8>> {
    match note.key_number() {
        Some(key) => Some(seq![status, key, velocity]),
        None => None,
    }
}

/// Whether every note of `notes` has a key number.
pub open spec fn all_keys(notes: Seq<Note>) -> bool {
    forall|i: int| 0 <= i < notes.len() ==> (#[trigger] notes[i]).key_number() is Some
}

/// The message of each note, in the order of the notes.
pub open spec fn chord_messages(status: u8, notes: Seq<Note>, velocity: u8) -> Seq<Seq<u8>> {
    Seq::new(notes.len(), |i: int| note_message(status, notes[i], velocity).unwrap())
}

/// What goes out for a note comes back, when decoded, as that note switched on
/// or off on the first channel, with the same velocity.
pub proof fn lemma_note_message_decodes(note: Note, velocity: u8)
    requires
        note.key_number() is Some,
    ensures
        ({
            let key = note.key_number().unwrap();
            let data = seq![key, velocity];
            &&& note_message(NOTE_ON, note, velocity) == Some(seq![NOTE_ON].add(data))
            &&& note_message(NOTE_OFF, note, velocity) == Some(seq![NOTE_OFF].add(data))
            &&& bytes_needed(NOTE_ON, data) == 2 && bytes_needed(NOTE_OFF, data) == 2
            &&& status_kind(NOTE_ON) == Status::NoteOn && status_kind(NOTE_OFF) == Status::NoteOff
            &&& channel_of(NOTE_ON, data) == 0 && channel_of(NOTE_OFF, data) == 0
            &&& payload_of(NOTE_ON, data) == (Data::KeyNumber(key), Data::Velocity(velocity))
            &&& payload_of(NOTE_OFF, data) == (Data::KeyNumber(key), Data::Velocity(velocity))
            &&& Note::of_key(key) == Some(note)
        }),
{
    let key = note.key_number().unwrap();
    let data = seq![key, velocity];
    assert(seq![NOTE_ON].add(data) =~= seq![NOTE_ON, key, velocity]);
    assert(seq![NOTE_OFF].add(data) =~= seq![NOTE_OFF, key, velocity]);
    note.lemma_note_round_trip();
}

/// The bytes of one message for a note.
fn message(status: u8, note: &Note, velocity: u8) -> (r: Option<[u8; 3]>)
    ensures
        match r {
            Some(bytes) => note_message(status, *note, velocity) == Some(bytes@),
            None => note_message(status, *note, velocity) is None,
        },
{
    match note.to_key_number() {
        Some(key) => {
            let bytes: [u8; 3] = [status, key, velocity];
            assert(bytes@ =~= seq![status, key, velocity]);
            Some(bytes)
        },
        None => None,
    }
}

/// The bytes of one message for each note of a chord, or nothing where a note
/// has no key number.
fn messages(status: u8, chord: &Chord, velocity: u8) -> (r: Option<Vec<[u8; 3]>>)
    ensures
        match r {
            Some(all) => all_keys(chord.notes@) && all@.len() == chord.notes@.len() && forall|
                i: int,
            |
                0 <= i < all@.len() ==> (#[trigger] all@[i])@ == chord_messages(
                    status,
                    chord.notes@,
                    velocity,
                )[i],
            None => !all_keys(chord.notes@),
        },
{
    let mut all: Vec<[u8; 3]> = Vec::new();
    let mut i: usize = 0;
    while i < chord.notes.len()
        invariant
            i <= chord.notes@.len(),
            all@.len() == i,
            forall|j: int| 0 <= j < i ==> (#[trigger] chord.notes@[j]).key_number() is Some,
            forall|j: int|
                0 <= j < i ==> (#[trigger] all@[j])@ == chord_messages(
                    status,
                    chord.notes@,
                    velocity,
                )[j],
        decreases chord.notes@.len() - i,
    {
        match message(status, &chord.notes[i], velocity) {
            Some(bytes) => {
                all.push(bytes);
            },
            None => {
                assert(chord.notes@[i as int].key_number() is None);
                return None;
            },
        }
        i = i + 1;
    }
    Some(all)
}

/// The message that switches a note on.
pub fn note_on(note: &Note, velocity: u8) -> (r: Option<[u8; 3]>)
    ensures
        match r {
            Some(bytes) => note_message(NOTE_ON, *note, velocity) == Some(bytes@),
            None => note.key_number() is None,
        },
{
    message(NOTE_ON, note, velocity)
}

/// The message that switches a note off.
pub fn note_off(note: &Note, velocity: u8) -> (r: Option<[u8; 3]>)
    ensures
        match r {
            Some(bytes) => note_message(NOTE_OFF, *note, velocity) == Some(bytes@),
            None => note.key_number() is None,
        },
{
    message(NOTE_OFF, note, velocity)
}

/// The messages that switch the notes of a chord on, lowest note first.
pub fn chord_on(chord: &Chord, velocity: u8) -> (r: Option<Vec<[u8; 3]>>)
    ensures
        match r {
            Some(all) => all_keys(chord.notes@) && all@.len() == chord.notes@.len() && forall|
                i: int,
            |
                0 <= i < all@.len() ==> (#[trigger] all@[i])@ == chord_messages(
                    NOTE_ON,
                    chord.notes@,
                    velocity,
                )[i],
            None => !all_keys(chord.notes@),
        },
{
    messages(NOTE_ON, chord, velocity)
}

/// The messages that switch the notes of a chord off, lowest note first.
pub fn chord_off(chord: &Chord, velocity: u8) -> (r: Option<Vec<[u8; 3]>>)
    ensures
        match r {
            Some(all) => all_keys(chord.notes@) && all@.len() == chord.notes@.len() && forall|
                i: int,
            |
                0 <= i < all@.len() ==> (#[trigger] all@[i])@ == chord_messages(
                    NOTE_OFF,
                    chord.notes@,
                    velocity,
                )[i],
            None => !all_keys(chord.notes@),
        },
{
    messages(NOTE_OFF, chord, velocity)
}

/// One step of playing: a message to send, or a pause in milliseconds.
#[derive(Debug, Clone, Copy, PartialEq, Eq)]
pub enum Action {
    Send([u8; 3]),
    Wait(u64),
}

/// Whether `action` is the step at place `j` of playing the notes: the notes
/// switched on come first, lowest first, then one pause of the given length,
/// then the notes switched off in the same order.
pub open spec fn is_step(action: Action, j: int, notes: Seq<Note>, duration: u64, velocity: u8) -> bool {
    let n = notes.len() as int;
    if j < n {
        action matches Action::Send(bytes) && bytes@ == chord_messages(NOTE_ON, notes, velocity)[j]
    } else if j == n {
        action == Action::Wait(duration)
    } else {
        action matches Action::Send(bytes) && bytes@ == chord_messages(NOTE_OFF, notes, velocity)[j
            - n - 1]
    }
}

/// What playing a chord asks of the device, step by step.
pub open spec fn is_plan(plan: Seq<Action>, notes: Seq<Note>, duration: u64, velocity: u8) -> bool {
    &&& plan.len() == 2 * notes.len() + 1
    &&& forall|j: int|
        0 <= j < plan.len() ==> is_step(#[trigger] plan[j], j, notes, duration, velocity)
}

/// The steps that play a chord for `duration` milliseconds, or nothing where a
/// note of it has no key number.
pub fn chord_plan(chord: &Chord, duration: u64, velocity: u8) -> (r: Option<Vec<Action>>)
    ensures
        match r {
            Some(plan) => all_keys(chord.notes@) && is_plan(
                plan@,
                chord.notes@,
                duration,
                velocity,
            ),
            None => !all_keys(chord.notes@),
        },
{
    let on = match messages(NOTE_ON, chord, velocity) {
        Some(on) => on,
        None => {
            return None;
        },
    };
    let off = match messages(NOTE_OFF, chord, velocity) {
        Some(off) => off,
        None => {
            return None;
        },
    };
    let n: usize = on.len();
    let mut plan: Vec<Action> = Vec::new();
    let mut i: usize = 0;
    while i < n
        invariant
            i <= n,
            n == on@.len(),
            plan@.len() == i,
            forall|j: int| 0 <= j < i ==> #[trigger] plan@[j] == Action::Send(on@[j]),
        decreases n - i,
    {
        plan.push(Action::Send(on[i]));
        i = i + 1;
    }
    plan.push(Action::Wait(duration));
    let mut i: usize = 0;
    while i < n
        invariant
            i <= n,
            n == on@.len(),
            n == off@.len(),
            plan@.len() == n + 1 + i,
            forall|j: int| 0 <= j < n ==> #[trigger] plan@[j] == Action::Send(on@[j]),
            plan@[n as int] == Action::Wait(duration),
            forall|j: int| n < j < n + 1 + i ==> #[trigger] plan@[j] == Action::Send(off@[j - n - 1]),
        decreases n - i,
    {
        plan.push(Action::Send(off[i]));
        i = i + 1;
    }
    Some(plan)
}

/// The steps that play one note for `duration` milliseconds: the note on, the
/// pause, the note off. Nothing where the note has no key number.
pub fn note_plan(note: &Note, duration: u64, velocity: u8) -> (r: Option<Vec<Action>>)
    ensures
        match r {
            Some(plan) => note.key_number() is Some && is_plan(
                plan@,
                seq![*note],
                duration,
                velocity,
            ),
            None => note.key_number() is None,
        },
{
    let on = match message(NOTE_ON, note, velocity) {
        Some(on) => on,
        None => {
            return None;
        },
    };
    let off = match message(NOTE_OFF, note, velocity) {
        Some(off) => off,
        None => {
            return None;
        },
    };
    let mut plan: Vec<Action> = Vec::new();
    plan.push(Action::Send(on));
    plan.push(Action::Wait(duration));
    plan.push(Action::Send(off));
    Some(plan)
}

/// Place of the first port that bears a name, among the names of the ports in
/// the order in which the driver lists them.
pub fn get_port_index_by_name(names: &Vec<String>, name: &String) -> (r: Option<usize>)
    ensures
        match r {
            Some(i) => i < names@.len() && names@[i as int]@ == name@ && forall|j: int|
                0 <= j < i ==> (#[trigger] names@[j])@ != name@,
            None => forall|j: int| 0 <= j < names@.len() ==> (#[trigger] names@[j])@ != name@,
        },
{
    let mut i: usize = 0;
    while i < names.len()
        invariant
            i <= names@.len(),
            forall|j: int| 0 <= j < i ==> (#[trigger] names@[j])@ != name@,
        decreases names@.len() - i,
    {
        if names[i] == *name {
            return Some(i);
        }
        i = i + 1;
    }
    None
}

} // verus!
