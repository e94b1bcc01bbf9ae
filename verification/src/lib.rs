//! Musical pitch structures (notes, intervals, chords, scales) and the
//! decoding of raw MIDI channel messages into typed events.

pub mod messages;
pub mod midi;
pub mod music;
