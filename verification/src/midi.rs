use vstd::prelude::*;

verus! {

/// A channel MIDI message. On the wire each data field has 7 bits and a
/// pitch bend 14.
#[derive(Clone, Copy, Debug, PartialEq, Eq, Structural)]
pub enum MidiMessage {
    NoteOff { key: u8, vel: u8 },
    NoteOn { key: u8, vel: u8 },
    Aftertouch { key: u8, vel: u8 },
    Controller { controller: u8, value: u8 },
    ProgramChange { program: u8 },
    ChannelAftertouch { vel: u8 },
    PitchBend { bend: u16 },
}

/// A call to make on a sound-font synthesizer.
#[derive(Clone, Copy, Debug, PartialEq, Eq, Structural)]
pub enum SynthCall {
    NoteOn { channel: u32, key: u32, vel: u32 },
    NoteOff { channel: u32, key: u32 },
    Cc { channel: u32, controller: u32, value: u32 },
}

/// What a sound-font synthesizer is told for a MIDI message: a note-on
/// (a silent one is a note-off), a note-off, or a controller change; other
/// messages are ignored.
pub fn synth_call(channel: u8, message: MidiMessage) -> (res: Option<SynthCall>)
    ensures
        res == match message {
            MidiMessage::NoteOn { key, vel } => if vel > 0 {
                Some(SynthCall::NoteOn { channel: channel as u32, key: key as u32, vel: vel as u32 })
            } else {
                Some(SynthCall::NoteOff { channel: channel as u32, key: key as u32 })
            },
            MidiMessage::NoteOff { key, .. } => Some(
                SynthCall::NoteOff { channel: channel as u32, key: key as u32 },
            ),
            MidiMessage::Controller { controller, value } => Some(
                SynthCall::Cc { channel: channel as u32, controller: controller as u32, value: value as u32 },
            ),
            _ => None,
        },
{
    match message {
        MidiMessage::NoteOn { key, vel } => {
            if vel > 0 {
                Some(SynthCall::NoteOn { channel: channel as u32, key: key as u32, vel: vel as u32 })
            } else {
                Some(SynthCall::NoteOff { channel: channel as u32, key: key as u32 })
            }
        },
        MidiMessage::NoteOff { key, .. } => Some(SynthCall::NoteOff { channel: channel as u32, key: key as u32 }),
        MidiMessage::Controller { controller, value } => Some(
            SynthCall::Cc { channel: channel as u32, controller: controller as u32, value: value as u32 },
        ),
        _ => None,
    }
}

} // verus!
