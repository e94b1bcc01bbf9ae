//! Raw MIDI messages and their decoded, typed form.

use vstd::prelude::*;

verus! {

/// Second and optional third byte of a message, by meaning.
#[derive(Debug, Clone, Copy, PartialEq, Eq, Structural)]
pub enum Data {
    KeyNumber(u8),
    Velocity(u8),
    ControllerNumber(u8),
    ControllerValue(u8),
    PressureAmount(u8),
    ProgramNumber(u8),
    PressureValue(u8),
    MSB(u8),
    LSB(u8),
    ResetAllControllers,
    LocalControl(u8),
    AllNotesOff,
    OmniModeOff,
    OmniModeOn,
    MonoModeOn,
    PolyModeOn,
    Empty,
}

/// Kind of a message, given by the high half of its first byte.
#[derive(Debug, Clone, Copy, PartialEq, Eq, Structural)]
pub enum Status {
    NoteOff,
    NoteOn,
    PolyphonicKeyPressure,
    ControlChange,
    ProgramChange,
    ChannelPressure,
    PitchBend,
    Unknown,
}

/// A message as it comes from a device: a time stamp, the status byte and the
/// data bytes that follow it.
#[derive(Debug)]
pub struct Raw {
    pub stamp: u64,
    pub status: u8,
    pub data: Vec<u8>,
}

/// A decoded message.
#[derive(Debug)]
pub struct Midi {
    pub channel: u8,
    pub stamp: u64,
    pub status: Status,
    pub data: [Data; 2],
}

/// A raw message holds fewer data bytes than its kind reads.
#[derive(Debug, Clone, Copy, PartialEq, Eq, Structural)]
pub struct MalformedMessage {
    /// Number of data bytes that the message's kind reads.
    pub needed: usize,
    /// Number of data bytes that the message holds.
    pub found: usize,
}

/// Channel given to channel-mode messages, which address every channel.
pub const ALL_CHANNELS: u8 = 16;

/// The kind that a status byte announces.
pub open spec fn status_kind(status: u8) -> Status {
    let high = status as int / 16;
    if high == 0x8 {
        Status::NoteOff
    } else if high == 0x9 {
        Status::NoteOn
    } else if high == 0xA {
        Status::PolyphonicKeyPressure
    } else if high == 0xB {
        Status::ControlChange
    } else if high == 0xC {
        Status::ProgramChange
    } else if high == 0xD {
        Status::ChannelPressure
    } else if high == 0xE {
        Status::PitchBend
    } else {
        Status::Unknown
    }
}

/// Whether a controller number is reserved for a channel-mode message.
pub open spec fn is_channel_mode(controller: u8) -> bool {
    0x79 <= controller <= 0x7F
}

/// Number of data bytes that decoding reads from a message.
pub open spec fn bytes_needed(status: u8, data: Seq<u8>) -> nat {
    match status_kind(status) {
        Status::NoteOff | Status::NoteOn | Status::PolyphonicKeyPressure | Status::PitchBend => 2,
        Status::ControlChange => if data.len() >= 2 && data[1] == 0x7A {
            3
        } else {
            2
        },
        Status::ProgramChange | Status::ChannelPressure => 1,
        Status::Unknown => 0,
    }
}

/// Whether a message is a control change whose controller number is reserved.
pub open spec fn is_mode_message(status: u8, data: Seq<u8>) -> bool {
    status_kind(status) == Status::ControlChange && data.len() >= 2 && is_channel_mode(data[1])
}

/// The channel of a message: the low half of the status byte, but for
/// channel-mode messages.
pub open spec fn channel_of(status: u8, data: Seq<u8>) -> u8 {
    if is_mode_message(status, data) {
        ALL_CHANNELS
    } else {
        (status as int % 16) as u8
    }
}

/// What a channel-mode message with this controller number says; `value` is the
/// byte that follows the controller number.
pub open spec fn mode_payload(controller: u8, value: u8) -> Data {
    if controller == 0x79 {
        Data::ResetAllControllers
    } else if controller == 0x7A {
        Data::LocalControl(value)
    } else if controller == 0x7B {
        Data::AllNotesOff
    } else if controller == 0x7C {
        Data::OmniModeOff
    } else if controller == 0x7D {
        Data::OmniModeOn
    } else if controller == 0x7E {
        Data::MonoModeOn
    } else {
        Data::PolyModeOn
    }
}

/// The two typed values of a message that holds enough data bytes.
pub open spec fn payload_of(status: u8, data: Seq<u8>) -> (Data, Data) {
    match status_kind(status) {
        Status::NoteOff | Status::NoteOn => (Data::KeyNumber(data[0]), Data::Velocity(data[1])),
        Status::PolyphonicKeyPressure => (Data::KeyNumber(data[0]), Data::PressureAmount(data[1])),
        Status::ControlChange => if is_channel_mode(data[1]) {
            (mode_payload(data[1], data[2]), Data::Empty)
        } else {
            (Data::ControllerNumber(data[0]), Data::ControllerValue(data[1]))
        },
        Status::ProgramChange => (Data::ProgramNumber(data[0]), Data::Empty),
        Status::ChannelPressure => (Data::PressureValue(data[0]), Data::Empty),
        Status::PitchBend => (Data::MSB(data[0]), Data::LSB(data[1])),
        Status::Unknown => (Data::Empty, Data::Empty),
    }
}

impl Status {
    /// The kind that a status byte announces.
    pub fn of(status: u8) -> (r: Status)
        ensures
            r == status_kind(status),
    {
        let high: u8 = status / 16;
        if high == 0x8 {
            Status::NoteOff
        } else if high == 0x9 {
            Status::NoteOn
        } else if high == 0xA {
            Status::PolyphonicKeyPressure
        } else if high == 0xB {
            Status::ControlChange
        } else if high == 0xC {
            Status::ProgramChange
        } else if high == 0xD {
            Status::ChannelPressure
        } else if high == 0xE {
            Status::PitchBend
        } else {
            Status::Unknown
        }
    }
}

impl Raw {
    pub fn new(stamp: u64, status: u8, data: Vec<u8>) -> (r: Raw)
        ensures
            r.stamp == stamp,
            r.status == status,
            r.data == data,
    {
        Raw { stamp, status, data }
    }

    /// The message that a device delivered as one run of bytes: the status byte
    /// first, the data bytes after it.
    pub fn from_bytes(stamp: u64, message: &[u8]) -> (r: Option<Raw>)
        ensures
            message@.len() == 0 <==> r.is_none(),
            r matches Some(raw) ==> raw.stamp == stamp && raw.status == message@[0] && raw.data@
                == message@.skip(1),
    {
        if message.len() == 0 {
            return None;
        }
        let mut data: Vec<u8> = Vec::new();
        let mut i: usize = 1;
        while i < message.len()
            invariant
                1 <= i <= message@.len(),
                data@ == message@.subrange(1, i as int),
            decreases message@.len() - i,
        {
            data.push(message[i]);
            assert(data@ =~= message@.subrange(1, i + 1));
            i = i + 1;
        }
        assert(data@ =~= message@.skip(1));
        Some(Raw { stamp, status: message[0], data })
    }

    /// Number of data bytes that decoding reads from this message.
    pub fn needed(&self) -> (r: usize)
        ensures
            r == bytes_needed(self.status, self.data@),
    {
        match Status::of(self.status) {
            Status::NoteOff | Status::NoteOn | Status::PolyphonicKeyPressure | Status::PitchBend => 2,
            Status::ControlChange => if self.data.len() >= 2 && self.data[1] == 0x7A {
                3
            } else {
                2
            },
            Status::ProgramChange | Status::ChannelPressure => 1,
            Status::Unknown => 0,
        }
    }

    /// Decodes the message. The time stamp is kept; kind, channel and payload
    /// follow from the status byte and the data bytes. A message with fewer data
    /// bytes than its kind reads is refused.
    pub fn parse(&self) -> (r: Result<Midi, MalformedMessage>)
        ensures
            match r {
                Ok(m) => {
                    &&& self.data@.len() >= bytes_needed(self.status, self.data@)
                    &&& m.stamp == self.stamp
                    &&& m.status == status_kind(self.status)
                    &&& m.channel == channel_of(self.status, self.data@)
                    &&& m.channel <= ALL_CHANNELS
                    &&& m.data[0] == payload_of(self.status, self.data@).0
                    &&& m.data[1] == payload_of(self.status, self.data@).1
                },
                Err(e) => {
                    &&& self.data@.len() < bytes_needed(self.status, self.data@)
                    &&& e.needed == bytes_needed(self.status, self.data@)
                    &&& e.found == self.data@.len()
                },
            },
    {
        let needed = self.needed();
        if self.data.len() < needed {
            return Err(MalformedMessage { needed, found: self.data.len() });
        }
        let status = Status::of(self.status);
        let low: u8 = self.status % 16;
        let (channel, data): (u8, [Data; 2]) = match status {
            Status::NoteOff | Status::NoteOn => (
                low,
                [Data::KeyNumber(self.data[0]), Data::Velocity(self.data[1])],
            ),
            Status::PolyphonicKeyPressure => (
                low,
                [Data::KeyNumber(self.data[0]), Data::PressureAmount(self.data[1])],
            ),
            Status::ControlChange => {
                let controller: u8 = self.data[1];
                if controller == 0x79 {
                    (ALL_CHANNELS, [Data::ResetAllControllers, Data::Empty])
                } else if controller == 0x7A {
                    (ALL_CHANNELS, [Data::LocalControl(self.data[2]), Data::Empty])
                } else if controller == 0x7B {
                    (ALL_CHANNELS, [Data::AllNotesOff, Data::Empty])
                } else if controller == 0x7C {
                    (ALL_CHANNELS, [Data::OmniModeOff, Data::Empty])
                } else if controller == 0x7D {
                    (ALL_CHANNELS, [Data::OmniModeOn, Data::Empty])
                } else if controller == 0x7E {
                    (ALL_CHANNELS, [Data::MonoModeOn, Data::Empty])
                } else if controller == 0x7F {
                    (ALL_CHANNELS, [Data::PolyModeOn, Data::Empty])
                } else {
                    (low, [Data::ControllerNumber(self.data[0]), Data::ControllerValue(controller)])
                }
            },
            Status::ProgramChange => (low, [Data::ProgramNumber(self.data[0]), Data::Empty]),
            Status::ChannelPressure => (low, [Data::PressureValue(self.data[0]), Data::Empty]),
            Status::PitchBend => (low, [Data::MSB(self.data[0]), Data::LSB(self.data[1])]),
            Status::Unknown => (low, [Data::Empty, Data::Empty]),
        };
        Ok(Midi { channel, stamp: self.stamp, status, data })
    }
}

} // verus!
