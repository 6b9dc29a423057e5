use modal_logic::midi::MidiMessage;
use modal_logic::midi_input::{MidiInput, MidiRecv};

fn on(channel: u8, key: u8, vel: u8) -> MidiRecv {
    MidiRecv::Midi { channel, message: MidiMessage::NoteOn { key, vel } }
}

#[test]
fn note_on_passes_through() {
    let mut input = MidiInput::new();
    assert_eq!(input.pop_msg(on(1, 60, 100)), Some((1, MidiMessage::NoteOn { key: 60, vel: 100 })));
    assert_eq!(input.pop_msg(MidiRecv::Nothing), None);
}

#[test]
fn other_channels_are_dropped() {
    let mut input = MidiInput::new();
    input.set_channel(Some(2));
    assert_eq!(input.channel(), Some(2));
    assert_eq!(input.pop_msg(on(1, 60, 100)), None);
    assert_eq!(input.pop_msg(on(2, 61, 90)), Some((2, MidiMessage::NoteOn { key: 61, vel: 90 })));
}

#[test]
fn silent_note_on_becomes_note_off() {
    let mut input = MidiInput::new();
    input.pop_msg(on(0, 64, 80));
    assert_eq!(input.pop_msg(on(0, 64, 0)), Some((0, MidiMessage::NoteOff { key: 64, vel: 64 })));
    // The note is no longer held: unplugging releases nothing.
    assert_eq!(input.pop_msg(MidiRecv::Disconnected), None);
}

#[test]
fn unplugging_releases_held_notes() {
    let mut input = MidiInput::new();
    input.pop_msg(on(3, 60, 100));
    input.pop_msg(on(3, 67, 100));
    input.pop_msg(on(3, 60, 110));
    let first = input.pop_msg(MidiRecv::Disconnected).unwrap();
    let second = input.pop_msg(MidiRecv::Nothing).unwrap();
    assert_eq!(input.pop_msg(MidiRecv::Nothing), None);
    let mut keys = Vec::new();
    for (chan, msg) in [first, second] {
        assert_eq!(chan, 3);
        match msg {
            MidiMessage::NoteOff { key, vel } => {
                assert_eq!(vel, 127);
                keys.push(key);
            }
            other => panic!("expected a note-off, got {other:?}"),
        }
    }
    keys.sort();
    assert_eq!(keys, vec![60, 67]);
    // Everything was released: a second unplug sends nothing.
    assert_eq!(input.pop_msg(MidiRecv::Disconnected), None);
}

#[test]
fn released_note_is_not_released_again() {
    let mut input = MidiInput::new();
    input.pop_msg(on(0, 50, 100));
    assert_eq!(
        input.pop_msg(MidiRecv::Midi { channel: 0, message: MidiMessage::NoteOff { key: 50, vel: 30 } }),
        Some((0, MidiMessage::NoteOff { key: 50, vel: 30 }))
    );
    assert_eq!(input.pop_msg(MidiRecv::Disconnected), None);
}

#[test]
fn controller_messages_pass() {
    let mut input = MidiInput::new();
    let msg = MidiMessage::Controller { controller: 7, value: 99 };
    assert_eq!(input.pop_msg(MidiRecv::Midi { channel: 5, message: msg }), Some((5, msg)));
}
