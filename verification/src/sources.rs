use vstd::prelude::*;

use crate::index::{index_bits, index_from_bits};
use crate::midi::MidiMessage;
use crate::smf::{smf_parsed, SmfError, SmfSource};

verus! {

/// A source that never yields a message.
pub struct NullSource;

impl NullSource {
    pub fn try_next(&mut self) -> (res: Option<(u8, MidiMessage)>)
        ensures
            res is None,
    {
        None
    }
}

/// Makes `NullSource`s.
pub struct NullSourceNew;

impl NullSourceNew {
    pub fn new_src(&self) -> NullSource {
        NullSource
    }

    pub fn name(&self) -> (res: String)
        ensures
            res@ == "Null"@,
    {
        String::from_str("Null")
    }
}

/// A source reading the MIDI values of a runtime's extern input.
pub struct ExternSource {
    index: thunderdome::Index,
}

/// Makes `ExternSource`s for the extern input `name`, defined at the runtime
/// index whose bits are `idx`.
pub struct ExternSourceNew {
    pub name: String,
    pub idx: u64,
}

impl ExternSource {
    /// The bits of the runtime index of the extern input read.
    pub closed spec fn bits(&self) -> u64 {
        index_bits(self.index)
    }

    /// The runtime index of the extern input read.
    pub fn index(&self) -> (res: thunderdome::Index)
        ensures
            index_bits(res) == self.bits(),
    {
        self.index
    }
}

impl ExternSourceNew {
    /// A source reading the extern input at the index whose bits are `idx`.
    pub fn new_src(&self) -> (res: ExternSource)
        requires
            self.idx >= 0x1_0000_0000,
        ensures
            res.bits() == self.idx,
    {
        ExternSource { index: index_from_bits(self.idx).unwrap() }
    }

    pub fn name(&self) -> (res: String)
        ensures
            res@ == self.name@,
    {
        self.name.clone()
    }
}

/// Makes `SmfSource`s from the bytes of a standard MIDI file.
pub struct SmfSourceNew {
    bytes: Vec<u8>,
    name: String,
}

impl SmfSourceNew {
    pub closed spec fn file_bytes(&self) -> Seq<u8> {
        self.bytes@
    }

    pub closed spec fn file_name(&self) -> Seq<char> {
        self.name@
    }

    /// A maker for the file `name` read as `bytes`.
    pub fn new(bytes: Vec<u8>, name: String) -> (res: Self)
        ensures
            res.file_bytes() == bytes@,
            res.file_name() == name@,
    {
        SmfSourceNew { bytes, name }
    }

    /// The bytes of the file.
    pub fn bytes(&self) -> (res: &[u8])
        ensures
            res@ == self.file_bytes(),
    {
        self.bytes.as_slice()
    }

    /// Parses the file and starts playing it from its start.
    pub fn new_src(&self) -> (res: Result<SmfSource, SmfError>)
        ensures
            match res {
                Ok(src) => smf_parsed(self.file_bytes()) matches Some(p) && p.1.len() > 0
                    && src.tracks() == p.1 && src.wf() && src.pending().len() == 0,
                Err(SmfError::Parse(_)) => smf_parsed(self.file_bytes()) is None,
                Err(SmfError::NoTracks) => smf_parsed(self.file_bytes()) matches Some(p)
                    && p.1.len() == 0,
            },
    {
        SmfSource::new(self.bytes.as_slice())
    }

    pub fn name(&self) -> (res: String)
        ensures
            res@ == self.file_name(),
    {
        self.name.clone()
    }
}

} // verus!
