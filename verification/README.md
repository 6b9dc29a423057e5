# modal_logic

The control, MIDI and bookkeeping logic of Modal, a modular sound
synthesiser, written in Verus: every function of `src/` carries a contract
and is proved against it.

## Layout

- `src/midi.rs`, `src/midi_input.rs`: MIDI messages; the channel filter of a
  MIDI input, its held notes and the note-offs it owes when unplugged.
- `src/polyphonic.rs`: the splitter that spreads notes over voices, and the
  control state of the polyphonic instrument.
- `src/one_note.rs`, `src/midi_cc.rs`, `src/gate.rs`: monophonic note,
  controller and gate nodes.
- `src/smf.rs`, `src/sources.rs`: playback of standard MIDI files (parsed by
  `midly`) by tick count, and the makers of MIDI sources.
- `src/remote.rs`, `src/taps.rs`, `src/editor.rs`: the editor's side of the
  audio runtime (the one-to-one map between editor nodes and runtime nodes,
  kept in a `bimap`), the outputs the audio thread plays and records, and how
  graph editor responses become runtime requests.
- `src/tree.rs`, `src/frame.rs`: the tree of editors, kept in a
  `thunderdome` arena, and the per-frame upkeep of the tree: dropping the
  editors whose handles are gone with everything below them, and adopting
  the editors that editors asked for.
- `src/expression.rs`, `src/controls.rs`, `src/kinds.rs`, `src/catalog.rs`,
  `src/scope.rs`: control state of expression, oscillator, noise and filter
  nodes, labels, node menus and the MIDI scope.
- `tests/`: tests of the library on concrete values.
- `app/`: a command-line player built on the library; the clock that turns
  elapsed time into ticks and the formatting of pitch bends use floating
  point and stay there.

Calls into `midly`, `bimap` and `thunderdome` go through small trusted
wrappers whose contracts say what the crates' sources show.
