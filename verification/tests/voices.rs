use modal_logic::midi::MidiMessage;
use modal_logic::one_note::{OneNote, OneNoteState};
use modal_logic::midi_input::MidiRecv;
use modal_logic::polyphonic::{polyphonic, MidiSplitter, Voice};
use modal_logic::remote::OutputPort;

fn note_on(key: u8) -> MidiMessage {
    MidiMessage::NoteOn { key, vel: 100 }
}

#[test]
fn splitter_starts_idle() {
    let s = MidiSplitter::new(3);
    assert_eq!(s.voices, vec![None, None, None]);
}

#[test]
fn note_on_takes_the_last_idle_voice() {
    let mut s = MidiSplitter::new(3);
    assert_eq!(s.route(note_on(60)), vec![2]);
    assert_eq!(s.voices[2], Some(Voice { ord: 0, key: 60 }));
    assert_eq!(s.route(note_on(62)), vec![1]);
    assert_eq!(s.route(note_on(64)), vec![0]);
    assert_eq!(s.voices[2], Some(Voice { ord: 2, key: 60 }));
}

#[test]
fn note_on_steals_the_oldest_voice() {
    let mut s = MidiSplitter::new(3);
    s.route(note_on(60));
    s.route(note_on(62));
    s.route(note_on(64));
    assert_eq!(s.route(note_on(65)), vec![2]);
    assert_eq!(
        s.voices,
        vec![
            Some(Voice { ord: 1, key: 64 }),
            Some(Voice { ord: 2, key: 62 }),
            Some(Voice { ord: 0, key: 65 }),
        ]
    );
}

#[test]
fn note_off_frees_the_voice_of_its_note() {
    let mut s = MidiSplitter::new(3);
    s.route(note_on(60));
    s.route(note_on(62));
    assert_eq!(s.route(MidiMessage::NoteOff { key: 62, vel: 0 }), vec![1]);
    assert_eq!(s.voices[1], None);
    // The freed voice is the one the next note takes.
    assert_eq!(s.route(note_on(70)), vec![1]);
}

#[test]
fn note_off_of_a_silent_key_goes_nowhere() {
    let mut s = MidiSplitter::new(2);
    s.route(note_on(60));
    let before = s.voices.clone();
    assert_eq!(s.route(MidiMessage::NoteOff { key: 61, vel: 0 }), Vec::<usize>::new());
    assert_eq!(s.voices, before);
}

#[test]
fn aftertouch_follows_its_note() {
    let mut s = MidiSplitter::new(2);
    s.route(note_on(60));
    assert_eq!(s.route(MidiMessage::Aftertouch { key: 60, vel: 10 }), vec![1]);
    assert_eq!(s.route(MidiMessage::Aftertouch { key: 61, vel: 10 }), Vec::<usize>::new());
    assert_eq!(s.voices[1], Some(Voice { ord: 0, key: 60 }));
}

#[test]
fn channel_messages_reach_every_voice() {
    let mut s = MidiSplitter::new(4);
    assert_eq!(s.route(MidiMessage::Controller { controller: 1, value: 3 }), vec![0, 1, 2, 3]);
    assert_eq!(s.route(MidiMessage::PitchBend { bend: 8192 }), vec![0, 1, 2, 3]);
}

#[test]
fn no_voices_no_targets() {
    let mut s = MidiSplitter::new(0);
    assert_eq!(s.route(note_on(60)), Vec::<usize>::new());
}

#[test]
fn one_note_state_follows_notes() {
    let mut st = OneNoteState::new();
    assert_eq!(st, OneNoteState { key: 0, vel: 0, on_ev: true });
    st.on_ev = false;
    st.update(&MidiMessage::NoteOn { key: 60, vel: 90 });
    assert_eq!(st, OneNoteState { key: 60, vel: 90, on_ev: true });
    st.update(&MidiMessage::NoteOff { key: 61, vel: 0 });
    assert_eq!(st.vel, 90);
    st.update(&MidiMessage::NoteOff { key: 60, vel: 0 });
    assert_eq!(st, OneNoteState { key: 60, vel: 0, on_ev: true });
}

#[test]
fn one_note_flags_note_on_for_one_step() {
    let mut node = OneNote::new();
    let got = node.feed(MidiRecv::Midi { channel: 0, message: MidiMessage::NoteOn { key: 72, vel: 50 } });
    assert_eq!(got, Some((0, MidiMessage::NoteOn { key: 72, vel: 50 })));
    assert_eq!(node.state, OneNoteState { key: 72, vel: 50, on_ev: true });
    assert_eq!(node.feed(MidiRecv::Nothing), None);
    assert_eq!(node.state, OneNoteState { key: 72, vel: 50, on_ev: false });
    node.feed(MidiRecv::Midi { channel: 0, message: MidiMessage::NoteOff { key: 72, vel: 0 } });
    assert_eq!(node.state.vel, 0);
}

#[test]
fn one_note_unplugged_goes_silent() {
    let mut node = OneNote::new();
    node.feed(MidiRecv::Midi { channel: 2, message: MidiMessage::NoteOn { key: 40, vel: 70 } });
    let got = node.feed(MidiRecv::Disconnected);
    assert_eq!(got, Some((2, MidiMessage::NoteOff { key: 40, vel: 127 })));
    assert_eq!(node.state, OneNoteState { key: 40, vel: 0, on_ev: false });
}

const GEN: u64 = 1 << 32;

#[test]
fn instrument_rebuilds_on_first_step() {
    let inst = polyphonic();
    assert_eq!(inst.voice_count, 0);
    assert_eq!(inst.splitter.voices.len(), 4);
    assert_eq!(inst.playback_port, None);
    // The voice count differs: rebuild, and the topology flag stays up.
    assert_eq!(inst.must_rebuild(4, true), (true, true));
}

#[test]
fn instrument_flag_drops_once_counts_agree() {
    let mut inst = polyphonic();
    inst.rebuilt(4, None, &Vec::new());
    assert_eq!(inst.voice_count, 4);
    assert_eq!(inst.must_rebuild(4, true), (true, false));
    assert_eq!(inst.must_rebuild(4, false), (false, false));
    assert_eq!(inst.must_rebuild(2, false), (true, false));
}

#[test]
fn instrument_finds_its_playback_output() {
    let mut inst = polyphonic();
    let mapping = vec![(1, GEN | 10), (2, GEN | 20), (2, GEN | 30)];
    inst.rebuilt(3, Some((2, 1)), &mapping);
    assert_eq!(inst.playback_port, Some(OutputPort { node: GEN | 20, port: 1 }));
    assert_eq!(inst.splitter.voices, vec![None, None, None]);
    inst.rebuilt(2, None, &mapping);
    assert_eq!(inst.playback_port, None);
    assert_eq!(inst.voice_count, 2);
}

#[test]
fn instrument_routes_received_notes() {
    let mut inst = polyphonic();
    inst.rebuilt(2, None, &Vec::new());
    let (msg, targets) = inst.route_input(MidiRecv::Midi { channel: 0, message: note_on(60) });
    assert_eq!(msg, Some((0, note_on(60))));
    assert_eq!(targets, vec![1]);
    let (msg, targets) = inst.route_input(MidiRecv::Nothing);
    assert_eq!(msg, None);
    assert!(targets.is_empty());
    // Unplugging releases the note, which reaches the voice that plays it.
    let (msg, targets) = inst.route_input(MidiRecv::Disconnected);
    assert_eq!(msg, Some((0, MidiMessage::NoteOff { key: 60, vel: 127 })));
    assert_eq!(targets, vec![1]);
    assert_eq!(inst.splitter.voices, vec![None, None]);
}

#[test]
fn oldest_voices_still_take_note_offs() {
    let mut s = MidiSplitter::new(2);
    s.voices[0] = Some(Voice { ord: u32::MAX, key: 60 });
    assert_eq!(s.route(MidiMessage::NoteOff { key: 60, vel: 0 }), vec![0]);
    assert_eq!(s.voices[0], None);
    s.voices[1] = Some(Voice { ord: u32::MAX, key: 61 });
    assert_eq!(s.route(MidiMessage::Controller { controller: 1, value: 2 }), vec![0, 1]);
    assert_eq!(s.route(MidiMessage::Aftertouch { key: 61, vel: 3 }), vec![1]);
}
