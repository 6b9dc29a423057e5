use modal_logic::midi::MidiMessage;
use modal_logic::smf::{Beat, SmfError, SmfEventKind, SmfSource, TickLength};
use modal_logic::sources::{ExternSourceNew, NullSourceNew, SmfSourceNew};

fn header(format: u8, tracks: u8, division: [u8; 2]) -> Vec<u8> {
    let mut v = b"MThd".to_vec();
    v.extend_from_slice(&[0, 0, 0, 6, 0, format, 0, tracks, division[0], division[1]]);
    v
}

fn track(events: &[u8]) -> Vec<u8> {
    let mut v = b"MTrk".to_vec();
    v.extend_from_slice(&(events.len() as u32).to_be_bytes());
    v.extend_from_slice(events);
    v
}

/// One track at 96 ticks per beat: a tempo of 500000 us per beat, note 60
/// on at tick 0 and off at tick 96.
fn one_track_file() -> Vec<u8> {
    let mut bytes = header(0, 1, [0, 96]);
    bytes.extend(track(&[
        0x00, 0xFF, 0x51, 0x03, 0x07, 0xA1, 0x20, // tempo 500000
        0x00, 0x90, 0x3C, 0x40, // note on 60, vel 64
        0x60, 0x80, 0x3C, 0x40, // after 96 ticks, note off 60
        0x00, 0xFF, 0x2F, 0x00, // end of track
    ]));
    bytes
}

#[test]
fn garbage_is_no_midi_file() {
    assert!(matches!(SmfSource::new(b"not a midi file"), Err(SmfError::Parse(_))));
    assert!(matches!(SmfSource::new(&[]), Err(SmfError::Parse(_))));
}

#[test]
fn file_without_tracks_is_refused() {
    let bytes = header(1, 0, [0, 96]);
    assert!(matches!(SmfSource::new(&bytes), Err(SmfError::NoTracks)));
}

#[test]
fn tick_length_takes_the_tempo() {
    let src = SmfSource::new(&one_track_file()).unwrap();
    assert_eq!(src.tick(), TickLength::Metrical { us_per_beat: 500000, ticks_per_beat: 96 });
}

#[test]
fn tick_length_defaults_to_ninety_bpm() {
    let mut bytes = header(0, 1, [0, 48]);
    bytes.extend(track(&[0x00, 0x90, 0x40, 0x10, 0x00, 0xFF, 0x2F, 0x00]));
    let src = SmfSource::new(&bytes).unwrap();
    assert_eq!(src.tick(), TickLength::Metrical { us_per_beat: 666667, ticks_per_beat: 48 });
}

#[test]
fn timecode_files_keep_frames() {
    // 25 frames per second (-25 as a signed byte), 40 ticks per frame.
    let mut bytes = header(0, 1, [0xE7, 40]);
    bytes.extend(track(&[0x00, 0xFF, 0x2F, 0x00]));
    let src = SmfSource::new(&bytes).unwrap();
    assert_eq!(src.tick(), TickLength::Timecode { fps: 25, subframes: 40 });
}

#[test]
fn events_play_when_due() {
    let mut src = SmfSource::new(&one_track_file()).unwrap();
    assert!(src.can_advance());
    // Tick 0: the tempo event passes silently, nothing else is due yet.
    assert_eq!(src.try_next(0), None);
    assert_eq!(src.try_next(0), Some((0, MidiMessage::NoteOn { key: 60, vel: 64 })));
    assert_eq!(src.try_next(50), None);
    assert_eq!(src.try_next(96), Some((0, MidiMessage::NoteOff { key: 60, vel: 64 })));
    assert_eq!(src.try_next(96), None);
    assert_eq!(src.try_next(1000), None);
}

#[test]
fn tracks_play_side_by_side() {
    let mut bytes = header(1, 2, [0, 96]);
    bytes.extend(track(&[0x00, 0x91, 0x30, 0x20, 0x00, 0xFF, 0x2F, 0x00]));
    bytes.extend(track(&[0x00, 0xB2, 0x07, 0x64, 0x00, 0xFF, 0x2F, 0x00]));
    let mut src = SmfSource::new(&bytes).unwrap();
    assert_eq!(src.try_next(0), Some((1, MidiMessage::NoteOn { key: 0x30, vel: 0x20 })));
    assert_eq!(src.try_next(0), Some((2, MidiMessage::Controller { controller: 7, value: 100 })));
    assert_eq!(src.try_next(0), None);
}

#[test]
fn channel_messages_of_every_kind() {
    let mut bytes = header(0, 1, [0, 96]);
    bytes.extend(track(&[
        0x00, 0xC3, 0x05, // program change 5 on channel 3
        0x00, 0xD3, 0x22, // channel aftertouch
        0x00, 0xE3, 0x00, 0x40, // pitch bend, centre
        0x00, 0xA3, 0x3C, 0x11, // key aftertouch
        0x00, 0xFF, 0x2F, 0x00,
    ]));
    let mut src = SmfSource::new(&bytes).unwrap();
    let mut got = Vec::new();
    for _ in 0..6 {
        if let Some(m) = src.try_next(0) {
            got.push(m);
        }
    }
    assert_eq!(
        got,
        vec![
            (3, MidiMessage::ProgramChange { program: 5 }),
            (3, MidiMessage::ChannelAftertouch { vel: 0x22 }),
            (3, MidiMessage::PitchBend { bend: 8192 }),
            (3, MidiMessage::Aftertouch { key: 0x3C, vel: 0x11 }),
        ]
    );
}

#[test]
fn beat_follows_tempo_events() {
    let mut beat = Beat::default();
    assert_eq!(beat.us(), 666667);
    beat.update(&SmfEventKind::Other);
    assert_eq!(beat.us(), 666667);
    beat.update(&SmfEventKind::Tempo(400000));
    assert_eq!(beat.us(), 400000);
}

#[test]
fn file_source_makes_players() {
    let maker = SmfSourceNew::new(one_track_file(), "song.mid".to_string());
    assert_eq!(maker.name(), "song.mid");
    assert_eq!(maker.bytes(), &one_track_file()[..]);
    let mut src = maker.new_src().unwrap();
    src.try_next(0);
    assert_eq!(src.try_next(0), Some((0, MidiMessage::NoteOn { key: 60, vel: 64 })));
    let bad = SmfSourceNew::new(vec![1, 2, 3], "bad".to_string());
    assert!(matches!(bad.new_src(), Err(SmfError::Parse(_))));
}

#[test]
fn null_source_plays_nothing() {
    let maker = NullSourceNew;
    assert_eq!(maker.name(), "Null");
    let mut src = maker.new_src();
    assert_eq!(src.try_next(), None);
}

#[test]
fn extern_source_reads_its_index() {
    let bits = (7u64 << 32) | 3;
    let maker = ExternSourceNew { name: "Midi".to_string(), idx: bits };
    assert_eq!(maker.name(), "Midi");
    let src = maker.new_src();
    assert_eq!(src.index().to_bits(), bits);
}
