use vstd::prelude::*;

verus! {

/// An entry of the node menu: the node's name and its categories.
pub struct MenuEntry {
    pub name: &'static str,
    pub categories: Vec<&'static str>,
}

/// The MIDI nodes, in the order in which the node menu lists them.
pub struct Midi;

impl Midi {
    /// The menu entries of the list.
    pub fn entries(&self) -> (res: Vec<MenuEntry>)
        ensures
            res@.len() == 4,
            res@[0].name@ == "Fluidlite Synth"@ && res@[0].categories@.len() == 1 && res@[0].categories@[0]@ == "Midi"@,
            res@[1].name@ == "Midi CC"@ && res@[1].categories@.len() == 1 && res@[1].categories@[0]@ == "Midi"@,
            res@[2].name@ == "One Note Instrument"@ && res@[2].categories@.len() == 1 && res@[2].categories@[0]@ == "Midi"@,
            res@[3].name@ == "Midi In"@ && res@[3].categories@.len() == 1 && res@[3].categories@[0]@ == "Midi"@,
    {
        let mut res: Vec<MenuEntry> = Vec::new();
        res.push(MenuEntry { name: "Fluidlite Synth", categories: vec!["Midi"] });
        res.push(MenuEntry { name: "Midi CC", categories: vec!["Midi"] });
        res.push(MenuEntry { name: "One Note Instrument", categories: vec!["Midi"] });
        res.push(MenuEntry { name: "Midi In", categories: vec!["Midi"] });
        res
    }
}

/// The effect nodes, in the order in which the node menu lists them.
pub struct Effects;

impl Effects {
    /// The menu entries of the list.
    pub fn entries(&self) -> (res: Vec<MenuEntry>)
        ensures
            res@.len() == 8,
            res@[0].name@ == "Bits"@ && res@[0].categories@.len() == 1 && res@[0].categories@[0]@ == "Effect"@,
            res@[1].name@ == "Chorus"@ && res@[1].categories@.len() == 1 && res@[1].categories@[0]@ == "Effect"@,
            res@[2].name@ == "Clip"@ && res@[2].categories@.len() == 1 && res@[2].categories@[0]@ == "Effect"@,
            res@[3].name@ == "Glide"@ && res@[3].categories@.len() == 1 && res@[3].categories@[0]@ == "Effect"@,
            res@[4].name@ == "Heart"@ && res@[4].categories@.len() == 1 && res@[4].categories@[0]@ == "Effect"@,
            res@[5].name@ == "Pitch Shift"@ && res@[5].categories@.len() == 1 && res@[5].categories@[0]@ == "Effect"@,
            res@[6].name@ == "Reverb"@ && res@[6].categories@.len() == 1 && res@[6].categories@[0]@ == "Effect"@,
            res@[7].name@ == "Reverse Delay"@ && res@[7].categories@.len() == 1 && res@[7].categories@[0]@ == "Effect"@,
    {
        let mut res: Vec<MenuEntry> = Vec::new();
        res.push(MenuEntry { name: "Bits", categories: vec!["Effect"] });
        res.push(MenuEntry { name: "Chorus", categories: vec!["Effect"] });
        res.push(MenuEntry { name: "Clip", categories: vec!["Effect"] });
        res.push(MenuEntry { name: "Glide", categories: vec!["Effect"] });
        res.push(MenuEntry { name: "Heart", categories: vec!["Effect"] });
        res.push(MenuEntry { name: "Pitch Shift", categories: vec!["Effect"] });
        res.push(MenuEntry { name: "Reverb", categories: vec!["Effect"] });
        res.push(MenuEntry { name: "Reverse Delay", categories: vec!["Effect"] });
        res
    }
}

/// The filter nodes, in the order in which the node menu lists them.
pub struct Filters;

impl Filters {
    /// The menu entries of the list.
    pub fn entries(&self) -> (res: Vec<MenuEntry>)
        ensures
            res@.len() == 4,
            res@[0].name@ == "BiQuad Filter"@ && res@[0].categories@.len() == 2 && res@[0].categories@[0]@ == "Effect"@ && res@[0].categories@[1]@ == "Filter"@,
            res@[1].name@ == "IIR Filter Single-Pole"@ && res@[1].categories@.len() == 2 && res@[1].categories@[0]@ == "Effect"@ && res@[1].categories@[1]@ == "Filter"@,
            res@[2].name@ == "One-Zero Filter"@ && res@[2].categories@.len() == 2 && res@[2].categories@[0]@ == "Effect"@ && res@[2].categories@[1]@ == "Filter"@,
            res@[3].name@ == "Pole-Zero Filter"@ && res@[3].categories@.len() == 2 && res@[3].categories@[0]@ == "Effect"@ && res@[3].categories@[1]@ == "Filter"@,
    {
        let mut res: Vec<MenuEntry> = Vec::new();
        res.push(MenuEntry { name: "BiQuad Filter", categories: vec!["Effect", "Filter"] });
        res.push(MenuEntry { name: "IIR Filter Single-Pole", categories: vec!["Effect", "Filter"] });
        res.push(MenuEntry { name: "One-Zero Filter", categories: vec!["Effect", "Filter"] });
        res.push(MenuEntry { name: "Pole-Zero Filter", categories: vec!["Effect", "Filter"] });
        res
    }
}

/// The noise nodes, in the order in which the node menu lists them.
pub struct Noise;

impl Noise {
    /// The menu entries of the list.
    pub fn entries(&self) -> (res: Vec<MenuEntry>)
        ensures
            res@.len() == 1,
            res@[0].name@ == "Noise"@ && res@[0].categories@.len() == 2 && res@[0].categories@[0]@ == "Noise"@ && res@[0].categories@[1]@ == "Source"@,
    {
        let mut res: Vec<MenuEntry> = Vec::new();
        res.push(MenuEntry { name: "Noise", categories: vec!["Noise", "Source"] });
        res
    }
}

} // verus!
