use vstd::prelude::*;

use crate::midi::MidiMessage;
use crate::midi_input::{MidiInput, MidiRecv};

verus! {

/// The note a monophonic instrument plays: its key, its velocity (0 when
/// released) and whether a note-on arrived in the current step.
#[derive(Clone, Copy, Debug, PartialEq, Eq, Structural)]
pub struct OneNoteState {
    pub key: u8,
    pub vel: u8,
    pub on_ev: bool,
}

impl OneNoteState {
    /// The state before any note: key 0, silent, with a pending note-on event.
    pub fn new() -> (res: Self)
        ensures
            res == (OneNoteState { key: 0, vel: 0, on_ev: true }),
    {
        OneNoteState { key: 0, vel: 0, on_ev: true }
    }

    /// The state after `message`.
    pub open spec fn updated(self, message: MidiMessage) -> OneNoteState {
        match message {
            MidiMessage::NoteOn { key, vel } => OneNoteState { key, vel, on_ev: true },
            MidiMessage::NoteOff { key, .. } => {
                if key == self.key {
                    OneNoteState { vel: 0, ..self }
                } else {
                    self
                }
            },
            _ => self,
        }
    }

    /// A note-on sets key and velocity and flags the event; a note-off of the
    /// current key silences it; other messages change nothing.
    pub fn update(&mut self, message: &MidiMessage)
        ensures
            *final(self) == old(self).updated(*message),
    {
        match message {
            MidiMessage::NoteOn { key, vel } => {
                if *vel == 0 && *key == self.key {
                    self.key = *key;
                    self.vel = 0;
                } else {
                    self.key = *key;
                    self.vel = *vel;
                }
                self.on_ev = true;
            },
            MidiMessage::NoteOff { key, .. } => {
                if *key == self.key {
                    self.vel = 0;
                }
            },
            _ => {},
        }
    }
}

/// A monophonic instrument driven by a MIDI input.
pub struct OneNote {
    pub midi_in: MidiInput,
    pub state: OneNoteState,
}

impl OneNote {
    pub fn new() -> (res: Self)
        ensures
            res.midi_in.wf(),
            res.midi_in.filter() is None,
            res.midi_in.held() == Set::<(u8, u8)>::empty(),
            res.midi_in.queue() == Seq::<(u8, MidiMessage)>::empty(),
            res.state == (OneNoteState { key: 0, vel: 0, on_ev: true }),
    {
        OneNote { midi_in: MidiInput::new(), state: OneNoteState::new() }
    }

    /// One sample step: the note-on flag drops, then the message the input
    /// hands out (if any) updates the note.
    pub fn feed(&mut self, recv: MidiRecv) -> (msg: Option<(u8, MidiMessage)>)
        requires
            old(self).midi_in.wf(),
        ensures
            final(self).midi_in.wf(),
            old(self).midi_in.pops(recv, msg, final(self).midi_in),
            final(self).state == match msg {
                Some(m) => OneNoteState { on_ev: false, ..old(self).state }.updated(m.1),
                None => OneNoteState { on_ev: false, ..old(self).state },
            },
    {
        self.state.on_ev = false;
        let msg = self.midi_in.pop_msg(recv);
        if let Some((_, m)) = msg {
            self.state.update(&m);
        }
        msg
    }
}

/// A note-off of the key just switched on silences the note and keeps its key.
pub proof fn law_note_off_silences(s: OneNoteState, key: u8, vel: u8, off_vel: u8)
    ensures
        s.updated(MidiMessage::NoteOn { key, vel }).updated(MidiMessage::NoteOff { key, vel: off_vel })
            == (OneNoteState { key, vel: 0, on_ev: true }),
{
}

} // verus!
