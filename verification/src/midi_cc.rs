use vstd::prelude::*;

use crate::midi::MidiMessage;
use crate::midi_input::{MidiInput, MidiRecv};

verus! {

/// The MIDI continuous controllers a controller node can follow.
#[derive(Clone, Copy, Debug, PartialEq, Eq, Structural)]
pub enum MidiCcKind {
    Modulation,
    FootPedal,
    Volume,
    Expression,
    Effect1,
    Effect2,
    DamperPedal,
    Portamento,
}

/// The controller number of each kind in the MIDI specification.
pub open spec fn cc_number(kind: MidiCcKind) -> u8 {
    match kind {
        MidiCcKind::Modulation => 1,
        MidiCcKind::FootPedal => 4,
        MidiCcKind::Volume => 7,
        MidiCcKind::Expression => 11,
        MidiCcKind::Effect1 => 12,
        MidiCcKind::Effect2 => 13,
        MidiCcKind::DamperPedal => 64,
        MidiCcKind::Portamento => 65,
    }
}

/// The value a controller of each kind rests at.
pub open spec fn cc_default(kind: MidiCcKind) -> u8 {
    match kind {
        MidiCcKind::Volume | MidiCcKind::Expression => 127,
        _ => 0,
    }
}

impl MidiCcKind {
    /// Every kind, in the order in which the selector lists them.
    pub fn all() -> (res: Vec<MidiCcKind>)
        ensures
            res@ == seq![
                MidiCcKind::Modulation,
                MidiCcKind::FootPedal,
                MidiCcKind::Volume,
                MidiCcKind::Expression,
                MidiCcKind::Effect1,
                MidiCcKind::Effect2,
                MidiCcKind::DamperPedal,
                MidiCcKind::Portamento,
            ],
    {
        vec![
            MidiCcKind::Modulation,
            MidiCcKind::FootPedal,
            MidiCcKind::Volume,
            MidiCcKind::Expression,
            MidiCcKind::Effect1,
            MidiCcKind::Effect2,
            MidiCcKind::DamperPedal,
            MidiCcKind::Portamento,
        ]
    }

    /// The controller number.
    pub fn number(self) -> (res: u8)
        ensures
            res == cc_number(self),
            res < 128,
            self == MidiCcKind::Modulation ==> res == 1,
            self == MidiCcKind::FootPedal ==> res == 4,
            self == MidiCcKind::Volume ==> res == 7,
            self == MidiCcKind::Expression ==> res == 11,
            self == MidiCcKind::Effect1 ==> res == 12,
            self == MidiCcKind::Effect2 ==> res == 13,
            self == MidiCcKind::DamperPedal ==> res == 64,
            self == MidiCcKind::Portamento ==> res == 65,
    {
        match self {
            MidiCcKind::Modulation => 1,
            MidiCcKind::FootPedal => 4,
            MidiCcKind::Volume => 7,
            MidiCcKind::Expression => 11,
            MidiCcKind::Effect1 => 12,
            MidiCcKind::Effect2 => 13,
            MidiCcKind::DamperPedal => 64,
            MidiCcKind::Portamento => 65,
        }
    }

    /// Whether the controller is an on/off switch (the pedals) rather than a
    /// continuous one.
    pub fn binary(self) -> (res: bool)
        ensures
            res <==> (self == MidiCcKind::DamperPedal || self == MidiCcKind::Portamento),
    {
        match self {
            MidiCcKind::Modulation
            | MidiCcKind::FootPedal
            | MidiCcKind::Volume
            | MidiCcKind::Expression
            | MidiCcKind::Effect1
            | MidiCcKind::Effect2 => false,
            MidiCcKind::DamperPedal | MidiCcKind::Portamento => true,
        }
    }

    /// The resting value: full scale for volume and expression, 0 otherwise.
    pub fn default(self) -> (res: u8)
        ensures
            res == cc_default(self),
            res < 128,
    {
        match self {
            MidiCcKind::Modulation => 0,
            MidiCcKind::FootPedal => 0,
            MidiCcKind::Volume => 127,
            MidiCcKind::Expression => 127,
            MidiCcKind::Effect1 => 0,
            MidiCcKind::Effect2 => 0,
            MidiCcKind::DamperPedal => 0,
            MidiCcKind::Portamento => 0,
        }
    }

    /// The name shown to the user.
    pub fn label(self) -> (res: &'static str)
        ensures
            self == MidiCcKind::Modulation ==> res@ == "Modulation"@,
            self == MidiCcKind::FootPedal ==> res@ == "Foot Pedal"@,
            self == MidiCcKind::Volume ==> res@ == "Volume"@,
            self == MidiCcKind::Expression ==> res@ == "Expression"@,
            self == MidiCcKind::Effect1 ==> res@ == "Effect Controller 1"@,
            self == MidiCcKind::Effect2 ==> res@ == "Effect Controller 2"@,
            self == MidiCcKind::DamperPedal ==> res@ == "Damper Pedal"@,
            self == MidiCcKind::Portamento ==> res@ == "Portamento"@,
    {
        match self {
            MidiCcKind::Modulation => "Modulation",
            MidiCcKind::FootPedal => "Foot Pedal",
            MidiCcKind::Volume => "Volume",
            MidiCcKind::Expression => "Expression",
            MidiCcKind::Effect1 => "Effect Controller 1",
            MidiCcKind::Effect2 => "Effect Controller 2",
            MidiCcKind::DamperPedal => "Damper Pedal",
            MidiCcKind::Portamento => "Portamento",
        }
    }
}

/// A node that follows one MIDI controller; its output is `value / 127`.
pub struct MidiCc {
    pub midi_in: MidiInput,
    pub cc: MidiCcKind,
    /// The last controller value, 0 to 127.
    pub value: u8,
}

impl MidiCc {
    /// A node following the foot pedal, at value 0.
    pub fn new() -> (res: Self)
        ensures
            res.midi_in.wf(),
            res.midi_in.filter() is None,
            res.midi_in.held() == Set::<(u8, u8)>::empty(),
            res.midi_in.queue() == Seq::<(u8, MidiMessage)>::empty(),
            res.cc == MidiCcKind::FootPedal,
            res.value == 0,
    {
        MidiCc { midi_in: MidiInput::new(), cc: MidiCcKind::FootPedal, value: 0 }
    }

    /// One sample step with `selected` the kind chosen in the node's settings.
    ///
    /// A change of kind resets the value to the new kind's resting value; then
    /// a controller message for the followed number sets the value.
    pub fn feed(&mut self, selected: MidiCcKind, recv: MidiRecv) -> (msg: Option<(u8, MidiMessage)>)
        requires
            old(self).midi_in.wf(),
        ensures
            final(self).midi_in.wf(),
            old(self).midi_in.pops(recv, msg, final(self).midi_in),
            final(self).cc == selected,
            final(self).value == match msg {
                Some((_, MidiMessage::Controller { controller, value })) => {
                    if controller == cc_number(selected) {
                        value
                    } else if selected != old(self).cc {
                        cc_default(selected)
                    } else {
                        old(self).value
                    }
                },
                _ => {
                    if selected != old(self).cc {
                        cc_default(selected)
                    } else {
                        old(self).value
                    }
                },
            },
    {
        if selected != self.cc {
            self.value = selected.default();
            self.cc = selected;
        }
        let msg = self.midi_in.pop_msg(recv);
        if let Some((_, m)) = msg {
            match m {
                MidiMessage::Controller { controller, value } => {
                    if controller == self.cc.number() {
                        self.value = value;
                    }
                },
                _ => {},
            }
        }
        msg
    }
}

/// The controller numbers are those of the MIDI specification: modulation
/// wheel 1, foot pedal 4, channel volume 7, expression 11, effect controllers
/// 12 and 13, damper pedal 64, portamento 65; and no two kinds share one.
pub proof fn law_cc_numbers_follow_the_midi_specification(a: MidiCcKind, b: MidiCcKind)
    ensures
        cc_number(MidiCcKind::Modulation) == 1,
        cc_number(MidiCcKind::FootPedal) == 4,
        cc_number(MidiCcKind::Volume) == 7,
        cc_number(MidiCcKind::Expression) == 11,
        cc_number(MidiCcKind::Effect1) == 12,
        cc_number(MidiCcKind::Effect2) == 13,
        cc_number(MidiCcKind::DamperPedal) == 64,
        cc_number(MidiCcKind::Portamento) == 65,
        a != b ==> cc_number(a) != cc_number(b),
{
}

} // verus!
