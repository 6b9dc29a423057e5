use modal_logic::midi_cc::MidiCcKind;

#[test]
fn pedals_are_binary() {
    assert!(MidiCcKind::DamperPedal.binary());
    assert!(MidiCcKind::Portamento.binary());
    assert!(!MidiCcKind::Volume.binary());
}
