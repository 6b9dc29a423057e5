use vstd::prelude::*;

verus! {

/// What an editor frame did to the graph.
#[derive(Clone, Copy, Debug, PartialEq, Eq, Structural)]
pub enum UpdateResult {
    Unchanged,
    TopologyChanged,
}

/// The kinds of connection between graph nodes.
#[derive(Clone, Copy, Debug, PartialEq, Eq, Structural)]
pub enum SynthDataType {
    Float,
    Midi,
    Beat,
}

impl SynthDataType {
    /// The name shown on ports of this kind.
    pub fn name(self) -> (res: &'static str)
        ensures
            self == SynthDataType::Float ==> res@ == "signal"@,
            self == SynthDataType::Midi ==> res@ == "MIDI"@,
            self == SynthDataType::Beat ==> res@ == "Beat"@,
    {
        match self {
            SynthDataType::Float => "signal",
            SynthDataType::Midi => "MIDI",
            SynthDataType::Beat => "Beat",
        }
    }
}

/// The conversions of the convert node.
#[derive(Clone, Copy, Debug, PartialEq, Eq, Structural)]
pub enum ConvTy {
    FreqToTime,
}

impl ConvTy {
    pub fn label(self) -> (res: &'static str)
        ensures
            res@ == "Freq to Time"@,
    {
        match self {
            ConvTy::FreqToTime => "Freq to Time",
        }
    }
}

/// The clipping curves of the clip node.
#[derive(Clone, Copy, Debug, PartialEq, Eq, Structural)]
pub enum ClipType {
    Hard,
    Poly,
    Tanh,
}

impl ClipType {
    pub fn label(self) -> (res: &'static str)
        ensures
            self == ClipType::Hard ==> res@ == "Hard"@,
            self == ClipType::Poly ==> res@ == "Poly"@,
            self == ClipType::Tanh ==> res@ == "Tanh"@,
    {
        match self {
            ClipType::Hard => "Hard",
            ClipType::Poly => "Poly",
            ClipType::Tanh => "Tanh",
        }
    }
}

/// The filters of the pole-zero node.
#[derive(Clone, Copy, Debug, PartialEq, Eq, Structural)]
pub enum PoleZeroTy {
    Allpass,
    BlockDC,
}

impl PoleZeroTy {
    pub fn label(self) -> (res: &'static str)
        ensures
            self == PoleZeroTy::Allpass ==> res@ == "Allpass"@,
            self == PoleZeroTy::BlockDC ==> res@ == "BlockDC"@,
    {
        match self {
            PoleZeroTy::Allpass => "Allpass",
            PoleZeroTy::BlockDC => "BlockDC",
        }
    }

    /// The name of the node's parameter input: the coefficient of the
    /// all-pass filter or the pole of the DC blocker.
    pub fn param_input(self) -> (res: &'static str)
        ensures
            self == PoleZeroTy::Allpass ==> res@ == "c"@,
            self == PoleZeroTy::BlockDC ==> res@ == "pole"@,
    {
        match self {
            PoleZeroTy::Allpass => "c",
            PoleZeroTy::BlockDC => "pole",
        }
    }
}

/// The kinds of noise of the noise node.
#[derive(Clone, Copy, Debug, PartialEq, Eq, Structural)]
pub enum NoiseType {
    Uniform,
    Perlin,
}

impl NoiseType {
    pub fn label(self) -> (res: &'static str)
        ensures
            self == NoiseType::Uniform ==> res@ == "Uniform"@,
            self == NoiseType::Perlin ==> res@ == "Perlin"@,
    {
        match self {
            NoiseType::Uniform => "Uniform",
            NoiseType::Perlin => "Perlin",
        }
    }
}

} // verus!
