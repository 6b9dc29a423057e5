use vstd::prelude::*;

use crate::kinds::{NoiseType, PoleZeroTy};

verus! {

/// The settings of an oscillator that shape its inputs: a manual output
/// range (min and max inputs) and synchronisation to a beat input in place
/// of a frequency.
pub struct Oscillator {
    pub manual_range: bool,
    pub bpm_sync: bool,
}

/// The input names of an oscillator with these settings.
pub open spec fn oscillator_inputs(manual_range: bool, bpm_sync: bool) -> Seq<Seq<char>> {
    let first = if bpm_sync {
        "beat"@
    } else {
        "f"@
    };
    let base = seq![first, "shape"@, "phase"@];
    if manual_range {
        base + seq!["min"@, "max"@]
    } else {
        base
    }
}

/// A new oscillator: frequency driven, range -1 to 1.
pub fn oscillator() -> (res: Oscillator)
    ensures
        !res.manual_range,
        !res.bpm_sync,
{
    Oscillator { manual_range: false, bpm_sync: false }
}

impl Oscillator {
    /// Takes over the settings; tells whether they changed, in which case the
    /// inputs must be rebuilt.
    pub fn sync_config(&mut self, manual_range: bool, bpm_sync: bool) -> (recalc: bool)
        ensures
            final(self).manual_range == manual_range,
            final(self).bpm_sync == bpm_sync,
            recalc == (manual_range != old(self).manual_range || bpm_sync != old(self).bpm_sync),
    {
        let recalc = manual_range != self.manual_range || bpm_sync != self.bpm_sync;
        self.manual_range = manual_range;
        self.bpm_sync = bpm_sync;
        recalc
    }

    /// The names of the inputs: the frequency or the beat, the shape, the
    /// phase, then min and max when the range is manual.
    pub fn input_names(&self) -> (res: Vec<&'static str>)
        ensures
            res@.map_values(|s: &'static str| s@) == oscillator_inputs(self.manual_range, self.bpm_sync),
            res@[0]@ == (if self.bpm_sync { "beat"@ } else { "f"@ }),
            res@[1]@ == "shape"@,
            res@[2]@ == "phase"@,
            res@.len() == if self.manual_range { 5int } else { 3int },
            self.manual_range ==> res@[3]@ == "min"@ && res@[4]@ == "max"@,
    {
        let mut res: Vec<&'static str> = Vec::new();
        if self.bpm_sync {
            res.push("beat");
        } else {
            res.push("f");
        }
        res.push("shape");
        res.push("phase");
        if self.manual_range {
            res.push("min");
            res.push("max");
        }
        proof {
            assert(res@.map_values(|s: &'static str| s@) =~= oscillator_inputs(
                self.manual_range,
                self.bpm_sync,
            ));
        }
        res
    }
}

/// The control state of a pole-zero filter: the filter type it was built for.
pub struct PoleZero {
    pub filt_ty: PoleZeroTy,
}

impl PoleZero {
    pub fn new(ty: PoleZeroTy) -> (res: PoleZero)
        ensures
            res.filt_ty == ty,
    {
        PoleZero { filt_ty: ty }
    }

    /// Takes over the type chosen in the settings; tells whether it changed,
    /// in which case the inputs must be rebuilt.
    pub fn sync_type(&mut self, selected: PoleZeroTy) -> (recalc: bool)
        ensures
            final(self).filt_ty == selected,
            recalc == (selected != old(self).filt_ty),
    {
        let recalc = selected != self.filt_ty;
        self.filt_ty = selected;
        recalc
    }

    /// The input names: the signal, then the parameter of the filter type.
    pub fn input_names(&self) -> (res: Vec<&'static str>)
        ensures
            res@.len() == 2,
            res@[0]@ == "sig"@,
            self.filt_ty == PoleZeroTy::Allpass ==> res@[1]@ == "c"@,
            self.filt_ty == PoleZeroTy::BlockDC ==> res@[1]@ == "pole"@,
    {
        let mut res: Vec<&'static str> = Vec::new();
        res.push("sig");
        res.push(self.filt_ty.param_input());
        res
    }
}

/// A new pole-zero filter: a DC blocker.
pub fn pole_zero() -> (res: PoleZero)
    ensures
        res.filt_ty == PoleZeroTy::BlockDC,
{
    PoleZero::new(PoleZeroTy::BlockDC)
}

/// The settings of a noise generator that shape its inputs: the kind of
/// noise and a manual output range (min and max inputs in place of a gain).
pub struct NoiseGen {
    pub manual_range: bool,
    pub ty: NoiseType,
}

/// The input names of a noise generator with these settings.
pub open spec fn noise_inputs(manual_range: bool, ty: NoiseType) -> Seq<Seq<char>> {
    let range = if manual_range {
        seq!["min"@, "max"@]
    } else {
        seq!["gain"@]
    };
    let freq = if ty == NoiseType::Perlin {
        seq!["f"@]
    } else {
        Seq::empty()
    };
    seq!["latch"@, "reset"@] + range + freq
}

/// A new noise generator: uniform noise scaled by a gain.
pub fn noise_gen() -> (res: NoiseGen)
    ensures
        !res.manual_range,
        res.ty == NoiseType::Uniform,
{
    NoiseGen { manual_range: false, ty: NoiseType::Uniform }
}

impl NoiseGen {
    /// Takes over the settings; tells whether they changed, in which case the
    /// inputs must be rebuilt.
    pub fn sync_config(&mut self, ty: NoiseType, manual_range: bool) -> (emit: bool)
        ensures
            final(self).ty == ty,
            final(self).manual_range == manual_range,
            emit == (ty != old(self).ty || manual_range != old(self).manual_range),
    {
        let emit = ty != self.ty || manual_range != self.manual_range;
        self.ty = ty;
        self.manual_range = manual_range;
        emit
    }

    /// The names of the inputs: latch and reset, then min and max or the
    /// gain, then the frequency of Perlin noise.
    pub fn input_names(&self) -> (res: Vec<&'static str>)
        ensures
            res@.map_values(|s: &'static str| s@) == noise_inputs(self.manual_range, self.ty),
            res@[0]@ == "latch"@,
            res@[1]@ == "reset"@,
            self.manual_range ==> res@[2]@ == "min"@ && res@[3]@ == "max"@,
            !self.manual_range ==> res@[2]@ == "gain"@,
            res@.len() == (if self.manual_range { 4int } else { 3int }) + (if self.ty == NoiseType::Perlin {
                1int
            } else {
                0int
            }),
            self.ty == NoiseType::Perlin ==> res@[res@.len() - 1]@ == "f"@,
    {
        let mut res: Vec<&'static str> = Vec::new();
        res.push("latch");
        res.push("reset");
        if self.manual_range {
            res.push("min");
            res.push("max");
        } else {
            res.push("gain");
        }
        if self.ty == NoiseType::Perlin {
            res.push("f");
        }
        proof {
            assert(res@.map_values(|s: &'static str| s@) =~= noise_inputs(self.manual_range, self.ty));
        }
        res
    }

    /// Whether min and max are read from the data: the range is manual and
    /// the data holds them.
    pub fn reads_range(&self, data_len: usize) -> (res: bool)
        ensures
            res == (self.manual_range && data_len >= 4),
    {
        self.manual_range && data_len >= 4
    }

    /// Where the frequency of Perlin noise sits in the data: after min and
    /// max, or after the gain.
    pub fn frequency_slot(&self) -> (res: usize)
        ensures
            res == if self.manual_range {
                4usize
            } else {
                3usize
            },
            res == noise_inputs(self.manual_range, NoiseType::Perlin).len() - 1,
    {
        if self.manual_range {
            4
        } else {
            3
        }
    }
}

/// The inputs of a noise generator: latch and reset first; then min and max
/// when the range is manual, whatever the kind of noise, or else the gain;
/// then the frequency exactly for Perlin noise.
pub proof fn law_noise_inputs(manual_range: bool, ty: NoiseType)
    ensures
        noise_inputs(manual_range, ty)[0] == "latch"@,
        noise_inputs(manual_range, ty)[1] == "reset"@,
        manual_range ==> noise_inputs(manual_range, ty)[2] == "min"@ && noise_inputs(manual_range, ty)[3] == "max"@,
        !manual_range ==> noise_inputs(manual_range, ty)[2] == "gain"@,
        noise_inputs(manual_range, ty).len() == (if manual_range { 4int } else { 3int }) + (if ty
            == NoiseType::Perlin {
            1int
        } else {
            0int
        }),
        ty == NoiseType::Perlin ==> noise_inputs(manual_range, ty).last() == "f"@,
{
}

/// The inputs of an oscillator: the beat when synchronised, else the
/// frequency; the shape and the phase; then min and max exactly when the
/// range is manual.
pub proof fn law_oscillator_inputs(manual_range: bool, bpm_sync: bool)
    ensures
        oscillator_inputs(manual_range, bpm_sync)[0] == (if bpm_sync { "beat"@ } else { "f"@ }),
        oscillator_inputs(manual_range, bpm_sync)[1] == "shape"@,
        oscillator_inputs(manual_range, bpm_sync)[2] == "phase"@,
        oscillator_inputs(manual_range, bpm_sync).len() == if manual_range { 5int } else { 3int },
        manual_range ==> oscillator_inputs(manual_range, bpm_sync)[3] == "min"@ && oscillator_inputs(
            manual_range,
            bpm_sync,
        )[4] == "max"@,
{
}

} // verus!
