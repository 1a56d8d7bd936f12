//! The events of a timeline: tempo changes and musical messages.

use vstd::prelude::*;

verus! {

/// Lowest key of the MIDI note range.
pub const KEY_MIN: i16 = 0;

/// Highest key of the MIDI note range.
pub const KEY_MAX: i16 = 127;

/// The body of a musical event.
///
/// A key is kept in sixteen bits, so that a note that a transposition has
/// carried out of the range `KEY_MIN..=KEY_MAX` keeps the value it was given.
#[derive(Clone, Copy, Debug, PartialEq, Eq, Structural)]
pub enum MidiMessage {
    NoteOff { key: i16, vel: u8 },
    NoteOn { key: i16, vel: u8 },
    Aftertouch { key: i16, vel: u8 },
    Controller { controller: u8, value: u8 },
    ProgramChange { program: u8 },
    ChannelAftertouch { vel: u8 },
    PitchBend { bend: u16 },
}

/// A musical event: a message for one channel of the output sink.
#[derive(Clone, Copy, Debug, PartialEq, Eq, Structural)]
pub struct MidiEvent {
    pub channel: u8,
    pub message: MidiMessage,
}

/// What can happen at one tick of a timeline.
#[derive(Clone, Copy, Debug, PartialEq, Eq, Structural)]
pub enum Event {
    /// A new tempo, in microseconds per beat. It goes to the clock.
    Tempo(u32),
    /// A musical event. It goes to the output sink.
    Midi(MidiEvent),
}

/// The key `key` moved by `semitones`.
///
/// With `clamp_to_range` the result is brought back into `KEY_MIN..=KEY_MAX`.
/// Without it the sum is kept as it is, also where it leaves that range; only
/// the bounds of the sixteen-bit key itself limit it.
pub open spec fn shifted_key(key: i16, semitones: i8, clamp_to_range: bool) -> i16 {
    let sum = key + semitones;
    if clamp_to_range {
        if sum < KEY_MIN {
            KEY_MIN
        } else if sum > KEY_MAX {
            KEY_MAX
        } else {
            sum as i16
        }
    } else if sum < i16::MIN {
        i16::MIN
    } else if sum > i16::MAX {
        i16::MAX
    } else {
        sum as i16
    }
}

/// Whether `key` lies in the MIDI note range.
pub open spec fn key_in_range(key: i16) -> bool {
    KEY_MIN <= key <= KEY_MAX
}

/// Computes [`shifted_key`].
pub fn shift_key(key: i16, semitones: i8, clamp_to_range: bool) -> (r: i16)
    ensures
        r == shifted_key(key, semitones, clamp_to_range),
{
    let sum: i32 = key as i32 + semitones as i32;
    if clamp_to_range {
        if sum < KEY_MIN as i32 {
            KEY_MIN
        } else if sum > KEY_MAX as i32 {
            KEY_MAX
        } else {
            sum as i16
        }
    } else if sum < i16::MIN as i32 {
        i16::MIN
    } else if sum > i16::MAX as i32 {
        i16::MAX
    } else {
        sum as i16
    }
}

impl MidiMessage {
    /// Whether the message names a key: note on, note off and aftertouch do.
    pub open spec fn has_key(self) -> bool {
        self is NoteOff || self is NoteOn || self is Aftertouch
    }

    /// Whether the message names no key, or one in the MIDI note range.
    pub open spec fn in_range(self) -> bool {
        match self {
            MidiMessage::NoteOff { key, .. } => key_in_range(key),
            MidiMessage::NoteOn { key, .. } => key_in_range(key),
            MidiMessage::Aftertouch { key, .. } => key_in_range(key),
            _ => true,
        }
    }

    /// The message with its key, if it names one, moved by `semitones`.
    pub open spec fn transposed(self, semitones: i8, clamp_to_range: bool) -> MidiMessage {
        match self {
            MidiMessage::NoteOff { key, vel } => MidiMessage::NoteOff {
                key: shifted_key(key, semitones, clamp_to_range),
                vel,
            },
            MidiMessage::NoteOn { key, vel } => MidiMessage::NoteOn {
                key: shifted_key(key, semitones, clamp_to_range),
                vel,
            },
            MidiMessage::Aftertouch { key, vel } => MidiMessage::Aftertouch {
                key: shifted_key(key, semitones, clamp_to_range),
                vel,
            },
            other => other,
        }
    }

    /// Computes [`MidiMessage::transposed`].
    pub fn transpose(self, semitones: i8, clamp_to_range: bool) -> (r: MidiMessage)
        ensures
            r == self.transposed(semitones, clamp_to_range),
    {
        match self {
            MidiMessage::NoteOff { key, vel } => MidiMessage::NoteOff {
                key: shift_key(key, semitones, clamp_to_range),
                vel,
            },
            MidiMessage::NoteOn { key, vel } => MidiMessage::NoteOn {
                key: shift_key(key, semitones, clamp_to_range),
                vel,
            },
            MidiMessage::Aftertouch { key, vel } => MidiMessage::Aftertouch {
                key: shift_key(key, semitones, clamp_to_range),
                vel,
            },
            other => other,
        }
    }
}

impl Event {
    /// Whether the event names no key, or one in the MIDI note range.
    pub open spec fn in_range(self) -> bool {
        match self {
            Event::Midi(e) => e.message.in_range(),
            Event::Tempo(_) => true,
        }
    }

    /// The event with its key, if it names one, moved by `semitones`.
    /// Channel, velocity and every event without a key stay as they are.
    pub open spec fn transposed(self, semitones: i8, clamp_to_range: bool) -> Event {
        match self {
            Event::Midi(e) => Event::Midi(
                MidiEvent {
                    channel: e.channel,
                    message: e.message.transposed(semitones, clamp_to_range),
                },
            ),
            Event::Tempo(t) => Event::Tempo(t),
        }
    }

    /// Computes [`Event::transposed`].
    pub fn transpose(self, semitones: i8, clamp_to_range: bool) -> (r: Event)
        ensures
            r == self.transposed(semitones, clamp_to_range),
    {
        match self {
            Event::Midi(e) => Event::Midi(
                MidiEvent {
                    channel: e.channel,
                    message: e.message.transpose(semitones, clamp_to_range),
                },
            ),
            Event::Tempo(t) => Event::Tempo(t),
        }
    }
}

impl MidiEvent {
    /// Whether the event is one that a MIDI connection carries: a channel
    /// below 16, a key in the MIDI note range, a pitch bend of fourteen bits,
    /// and every other value of seven bits. A key that a transposition has
    /// carried out of its range makes an event that no connection carries.
    pub open spec fn fits_wire(self) -> bool {
        self.channel < 16 && match self.message {
            MidiMessage::NoteOff { key, vel } => key_in_range(key) && vel < 128,
            MidiMessage::NoteOn { key, vel } => key_in_range(key) && vel < 128,
            MidiMessage::Aftertouch { key, vel } => key_in_range(key) && vel < 128,
            MidiMessage::Controller { controller, value } => controller < 128 && value < 128,
            MidiMessage::ProgramChange { program } => program < 128,
            MidiMessage::ChannelAftertouch { vel } => vel < 128,
            MidiMessage::PitchBend { bend } => bend < 0x4000,
        }
    }

    /// Computes [`MidiEvent::fits_wire`].
    pub fn can_be_sent(&self) -> (r: bool)
        ensures
            r == self.fits_wire(),
    {
        self.channel < 16 && match self.message {
            MidiMessage::NoteOff { key, vel } => KEY_MIN <= key && key <= KEY_MAX && vel < 128,
            MidiMessage::NoteOn { key, vel } => KEY_MIN <= key && key <= KEY_MAX && vel < 128,
            MidiMessage::Aftertouch { key, vel } => KEY_MIN <= key && key <= KEY_MAX && vel < 128,
            MidiMessage::Controller { controller, value } => controller < 128 && value < 128,
            MidiMessage::ProgramChange { program } => program < 128,
            MidiMessage::ChannelAftertouch { vel } => vel < 128,
            MidiMessage::PitchBend { bend } => bend < 0x4000,
        }
    }
}

/// A transposition that clamps sends nothing off the wire: an event that a
/// connection carries is one that it carries afterwards.
pub proof fn lemma_clamped_stays_on_wire(event: MidiEvent, semitones: i8)
    requires
        event.fits_wire(),
    ensures
        (MidiEvent { channel: event.channel, message: event.message.transposed(semitones, true) }).fits_wire(),
{
}

/// Moving a key of the MIDI note range by `up` and then by `down`, where the
/// two cancel, gives the key back when nothing is clamped.
pub proof fn lemma_shift_round_trip(key: i16, up: i8, down: i8)
    requires
        key_in_range(key),
        up + down == 0,
    ensures
        shifted_key(shifted_key(key, up, false), down, false) == key,
{
}

/// Transposing an event whose key is in the MIDI note range by `up` and then
/// by `down`, where the two cancel, restores it when nothing is clamped.
pub proof fn lemma_event_round_trip(event: Event, up: i8, down: i8)
    requires
        event.in_range(),
        up + down == 0,
    ensures
        event.transposed(up, false).transposed(down, false) == event,
{
    match event {
        Event::Midi(e) => {
            match e.message {
                MidiMessage::NoteOff { key, .. } => lemma_shift_round_trip(key, up, down),
                MidiMessage::NoteOn { key, .. } => lemma_shift_round_trip(key, up, down),
                MidiMessage::Aftertouch { key, .. } => lemma_shift_round_trip(key, up, down),
                _ => {},
            }
        },
        Event::Tempo(_) => {},
    }
}

} // verus!
