use modal_logic::catalog::{Effects, Filters, Midi, Noise};
use modal_logic::controls::{noise_gen, oscillator, pole_zero, PoleZero};
use modal_logic::gate::GateInput;
use modal_logic::kinds::{ClipType, ConvTy, NoiseType, PoleZeroTy, SynthDataType};
use modal_logic::midi::{synth_call, MidiMessage, SynthCall};
use modal_logic::midi_cc::{MidiCc, MidiCcKind};
use modal_logic::midi_input::MidiRecv;
use modal_logic::scope::{midi_note_to_str, MidiScope};

#[test]
fn sound_font_calls() {
    assert_eq!(
        synth_call(2, MidiMessage::NoteOn { key: 60, vel: 100 }),
        Some(SynthCall::NoteOn { channel: 2, key: 60, vel: 100 })
    );
    assert_eq!(
        synth_call(2, MidiMessage::NoteOn { key: 60, vel: 0 }),
        Some(SynthCall::NoteOff { channel: 2, key: 60 })
    );
    assert_eq!(
        synth_call(9, MidiMessage::NoteOff { key: 61, vel: 40 }),
        Some(SynthCall::NoteOff { channel: 9, key: 61 })
    );
    assert_eq!(
        synth_call(1, MidiMessage::Controller { controller: 64, value: 127 }),
        Some(SynthCall::Cc { channel: 1, controller: 64, value: 127 })
    );
    assert_eq!(synth_call(1, MidiMessage::ProgramChange { program: 5 }), None);
    assert_eq!(synth_call(1, MidiMessage::PitchBend { bend: 100 }), None);
}

#[test]
fn controller_kinds() {
    let all = MidiCcKind::all();
    assert_eq!(all.len(), 8);
    assert_eq!(all[0], MidiCcKind::Modulation);
    assert_eq!(all[7], MidiCcKind::Portamento);
    assert_eq!(MidiCcKind::Modulation.number(), 1);
    assert_eq!(MidiCcKind::FootPedal.number(), 4);
    assert_eq!(MidiCcKind::DamperPedal.number(), 64);
    assert_eq!(MidiCcKind::Volume.default(), 127);
    assert_eq!(MidiCcKind::Expression.default(), 127);
    assert_eq!(MidiCcKind::Modulation.default(), 0);
    assert_eq!(MidiCcKind::Effect1.label(), "Effect Controller 1");
    assert_eq!(MidiCcKind::FootPedal.label(), "Foot Pedal");
}

#[test]
fn controller_node_follows_its_controller() {
    let mut node = MidiCc::new();
    assert_eq!(node.cc, MidiCcKind::FootPedal);
    assert_eq!(node.value, 0);
    let cc = |controller, value| MidiRecv::Midi { channel: 0, message: MidiMessage::Controller { controller, value } };
    node.feed(MidiCcKind::FootPedal, cc(4, 90));
    assert_eq!(node.value, 90);
    node.feed(MidiCcKind::FootPedal, cc(7, 10));
    assert_eq!(node.value, 90);
    // Switching to volume resets the value to its rest, 127.
    node.feed(MidiCcKind::Volume, MidiRecv::Nothing);
    assert_eq!(node.cc, MidiCcKind::Volume);
    assert_eq!(node.value, 127);
    node.feed(MidiCcKind::Volume, cc(7, 10));
    assert_eq!(node.value, 10);
}

#[test]
fn gate_edges() {
    let mut g = GateInput::new();
    assert!(!g.default_level());
    assert!(g.gate(Some(true), false));
    assert!(g.positive_edge());
    assert!(!g.negative_edge());
    assert!(g.gate(Some(true), true));
    assert!(!g.positive_edge() && !g.negative_edge());
    // Unplugged: the default level, low, is taken.
    assert!(!g.gate(None, true));
    assert!(g.negative_edge());
    g.set_default_level(true);
    assert!(g.default_level());
    assert!(g.gate(None, false));
    assert!(g.positive_edge());
}

#[test]
fn gate_edges_alternate() {
    let mut g = GateInput::new();
    g.gate(Some(true), false);
    assert!(g.positive_edge());
    g.gate(Some(false), true);
    assert!(g.negative_edge());
    g.gate(Some(true), false);
    assert!(g.positive_edge());
}

#[test]
fn scope_keeps_newest_first() {
    let mut scope = MidiScope::new();
    assert_eq!(scope.len(), 12);
    let m = |key| (0u8, MidiMessage::NoteOn { key, vel: 1 });
    scope.feed(vec![m(1), m(2), m(3)]);
    assert_eq!(scope.messages(), vec![m(3), m(2), m(1)]);
    scope.set_len(2);
    assert_eq!(scope.messages().len(), 3);
    scope.feed(vec![m(4)]);
    assert_eq!(scope.messages(), vec![m(4), m(3)]);
    scope.feed(Vec::new());
    assert_eq!(scope.messages(), vec![m(4), m(3)]);
}

#[test]
fn scope_of_zero_shows_nothing() {
    let mut scope = MidiScope::new();
    scope.set_len(0);
    scope.feed(vec![(1, MidiMessage::ProgramChange { program: 3 })]);
    assert!(scope.messages().is_empty());
}

#[test]
fn oscillator_inputs() {
    let mut osc = oscillator();
    assert_eq!(osc.input_names(), vec!["f", "shape", "phase"]);
    assert!(osc.sync_config(true, false));
    assert_eq!(osc.input_names(), vec!["f", "shape", "phase", "min", "max"]);
    assert!(!osc.sync_config(true, false));
    assert!(osc.sync_config(false, true));
    assert_eq!(osc.input_names(), vec!["beat", "shape", "phase"]);
}

#[test]
fn pole_zero_inputs() {
    let mut f = pole_zero();
    assert_eq!(f.filt_ty, PoleZeroTy::BlockDC);
    assert_eq!(f.input_names(), vec!["sig", "pole"]);
    assert!(f.sync_type(PoleZeroTy::Allpass));
    assert_eq!(f.input_names(), vec!["sig", "c"]);
    assert!(!f.sync_type(PoleZeroTy::Allpass));
    assert_eq!(PoleZero::new(PoleZeroTy::Allpass).filt_ty, PoleZeroTy::Allpass);
}

#[test]
fn kind_labels() {
    assert_eq!(SynthDataType::Float.name(), "signal");
    assert_eq!(SynthDataType::Midi.name(), "MIDI");
    assert_eq!(SynthDataType::Beat.name(), "Beat");
    assert_eq!(ConvTy::FreqToTime.label(), "Freq to Time");
    assert_eq!(ClipType::Hard.label(), "Hard");
    assert_eq!(ClipType::Poly.label(), "Poly");
    assert_eq!(ClipType::Tanh.label(), "Tanh");
    assert_eq!(PoleZeroTy::Allpass.label(), "Allpass");
    assert_eq!(PoleZeroTy::BlockDC.param_input(), "pole");
}

#[test]
fn node_menus() {
    let midi = Midi.entries();
    assert_eq!(midi.len(), 4);
    assert_eq!(midi[0].name, "Fluidlite Synth");
    assert_eq!(midi[3].name, "Midi In");
    assert_eq!(midi[1].categories, vec!["Midi"]);
    let effects = Effects.entries();
    assert_eq!(effects.len(), 8);
    assert_eq!(effects[5].name, "Pitch Shift");
    let filters = Filters.entries();
    assert_eq!(filters[3].name, "Pole-Zero Filter");
    assert_eq!(filters[3].categories, vec!["Effect", "Filter"]);
    let noise = Noise.entries();
    assert_eq!(noise.len(), 1);
    assert_eq!(noise[0].categories, vec!["Noise", "Source"]);
}

#[test]
fn noise_inputs() {
    let mut noise = noise_gen();
    assert_eq!(noise.input_names(), vec!["latch", "reset", "gain"]);
    assert!(!noise.reads_range(5));
    assert_eq!(noise.frequency_slot(), 3);
    assert!(noise.sync_config(NoiseType::Perlin, false));
    assert_eq!(noise.input_names(), vec!["latch", "reset", "gain", "f"]);
    assert!(noise.sync_config(NoiseType::Perlin, true));
    assert_eq!(noise.input_names(), vec!["latch", "reset", "min", "max", "f"]);
    assert_eq!(noise.frequency_slot(), 4);
    assert_eq!(noise.input_names()[noise.frequency_slot()], "f");
    assert!(noise.reads_range(4));
    assert!(!noise.reads_range(3));
    assert!(!noise.sync_config(NoiseType::Perlin, true));
    assert_eq!(NoiseType::Uniform.label(), "Uniform");
    assert_eq!(NoiseType::Perlin.label(), "Perlin");
}

#[test]
fn note_names_run_from_the_top() {
    assert_eq!(midi_note_to_str(0), "G♯9");
    assert_eq!(midi_note_to_str(8), "C9");
    assert_eq!(midi_note_to_str(9), "B8");
    assert_eq!(midi_note_to_str(60), "G♯4");
    assert_eq!(midi_note_to_str(126), "D1̠");
}
