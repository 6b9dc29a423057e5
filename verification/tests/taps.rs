use modal_logic::remote::{OutputPort, RtRequest};
use modal_logic::taps::Taps;

fn port(node: u64, port: usize) -> OutputPort {
    OutputPort { node, port }
}

fn sorted(mut v: Vec<OutputPort>) -> Vec<OutputPort> {
    v.sort_by_key(|p| (p.node, p.port));
    v
}

#[test]
fn taps_start_empty() {
    let taps = Taps::new();
    assert_eq!(taps.playing(), None);
    assert!(taps.recorded_ports().is_empty());
}

#[test]
fn play_selects_the_output() {
    let mut taps = Taps::new();
    taps.apply(&RtRequest::Play(Some(port(1, 0))));
    assert_eq!(taps.playing(), Some(port(1, 0)));
    taps.apply(&RtRequest::Play(None));
    assert_eq!(taps.playing(), None);
}

#[test]
fn record_then_stop_leaves_nothing() {
    let mut taps = Taps::new();
    taps.apply(&RtRequest::Record(4, 1));
    taps.apply(&RtRequest::Record(4, 1));
    assert_eq!(taps.recorded_ports(), vec![port(4, 1)]);
    assert!(taps.is_recorded(port(4, 1)));
    assert!(!taps.is_recorded(port(4, 0)));
    taps.apply(&RtRequest::StopRecording(4, 1));
    assert!(taps.recorded_ports().is_empty());
    assert!(!taps.is_recorded(port(4, 1)));
}

#[test]
fn stop_recording_keeps_other_ports() {
    let mut taps = Taps::new();
    taps.apply(&RtRequest::Record(4, 0));
    taps.apply(&RtRequest::Record(4, 1));
    taps.apply(&RtRequest::Record(5, 1));
    taps.apply(&RtRequest::StopRecording(4, 1));
    assert_eq!(sorted(taps.recorded_ports()), vec![port(4, 0), port(5, 1)]);
}

#[test]
fn removed_node_is_untapped() {
    let mut taps = Taps::new();
    taps.apply(&RtRequest::Play(Some(port(7, 2))));
    taps.apply(&RtRequest::Record(7, 0));
    taps.apply(&RtRequest::Record(7, 2));
    taps.apply(&RtRequest::Record(8, 0));
    taps.apply(&RtRequest::Remove(7));
    assert_eq!(taps.playing(), None);
    assert_eq!(taps.recorded_ports(), vec![port(8, 0)]);
}

#[test]
fn removing_another_node_keeps_playback() {
    let mut taps = Taps::new();
    taps.apply(&RtRequest::Play(Some(port(7, 2))));
    taps.apply(&RtRequest::Remove(3));
    taps.apply(&RtRequest::Shutdown);
    assert_eq!(taps.playing(), Some(port(7, 2)));
}
