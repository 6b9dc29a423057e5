//! Control, MIDI and bookkeeping logic of a modular sound synthesiser,
//! stated with contracts and proved with Verus.

pub mod catalog;
pub mod controls;
pub mod editor;
pub mod expression;
pub mod frame;
pub mod gate;
pub mod index;
pub mod kinds;
pub mod midi;
pub mod midi_cc;
pub mod midi_input;
pub mod one_note;
pub mod polyphonic;
pub mod remote;
pub mod scope;
pub mod smf;
pub mod tree;
pub mod sources;
pub mod taps;
