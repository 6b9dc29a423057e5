use vstd::prelude::*;

use crate::midi::MidiMessage;
use crate::midi_input::{MidiInput, MidiRecv};
use crate::remote::OutputPort;

verus! {

/// A voice that is sounding `key`; `ord` counts the note-ons since it started.
#[derive(Clone, Copy, Debug, PartialEq, Eq, Structural)]
pub struct Voice {
    pub ord: u32,
    pub key: u8,
}

/// The age by which a note-on picks its voice: idle voices rank highest.
pub open spec fn rank(slot: Option<Voice>) -> u32 {
    match slot {
        Some(v) => v.ord,
        None => u32::MAX,
    }
}

/// Every sounding voice one note-on older.
pub open spec fn aged(voices: Seq<Option<Voice>>) -> Seq<Option<Voice>> {
    voices.map_values(
        |slot: Option<Voice>|
            match slot {
                Some(v) => Some(Voice { ord: (v.ord + 1) as u32, key: v.key }),
                None => None,
            },
    )
}

/// `n` is the last of the voices of highest rank.
pub open spec fn is_pick(voices: Seq<Option<Voice>>, n: int) -> bool {
    &&& 0 <= n < voices.len()
    &&& forall|j: int| 0 <= j < voices.len() ==> rank(#[trigger] voices[j]) <= rank(voices[n])
    &&& forall|j: int| n < j < voices.len() ==> rank(#[trigger] voices[j]) < rank(voices[n])
}

/// Voice `slot` sounds `key`.
pub open spec fn sounds(slot: Option<Voice>, key: u8) -> bool {
    slot matches Some(v) && v.key == key
}

/// `n` is the first voice that sounds `key`.
pub open spec fn first_sounding(voices: Seq<Option<Voice>>, key: u8, n: int) -> bool {
    &&& 0 <= n < voices.len()
    &&& sounds(voices[n], key)
    &&& forall|j: int| 0 <= j < n ==> !sounds(#[trigger] voices[j], key)
}

/// No voice sounds `key`.
pub open spec fn silent(voices: Seq<Option<Voice>>, key: u8) -> bool {
    forall|j: int| 0 <= j < voices.len() ==> !sounds(#[trigger] voices[j], key)
}

/// No sounding voice is so old that one more note-on would overflow its age.
pub open spec fn ages_bounded(voices: Seq<Option<Voice>>) -> bool {
    forall|j: int| 0 <= j < voices.len() ==> rank(#[trigger] voices[j]) < u32::MAX || voices[j] is None
}

/// What routing `msg` does: `targets` are the voices it reaches, `after`
/// the voices afterwards, from `before`.
pub open spec fn routes(
    before: Seq<Option<Voice>>,
    msg: MidiMessage,
    targets: Seq<usize>,
    after: Seq<Option<Voice>>,
) -> bool {
    match msg {
        MidiMessage::NoteOn { key, .. } => {
            if before.len() == 0 {
                targets.len() == 0 && after == before
            } else {
                exists|n: int|
                    {
                        &&& is_pick(aged(before), n)
                        &&& targets == seq![n as usize]
                        &&& after == aged(before).update(n, Some(Voice { ord: 0, key }))
                    }
            }
        },
        MidiMessage::NoteOff { key, .. } => {
            &&& silent(before, key) ==> targets.len() == 0 && after == before
            &&& forall|n: int|
                first_sounding(before, key, n) ==> targets == seq![n as usize]
                    && after == before.update(n, None)
        },
        MidiMessage::Aftertouch { key, .. } => {
            &&& after == before
            &&& silent(before, key) ==> targets.len() == 0
            &&& forall|n: int|
                first_sounding(before, key, n) ==> targets == seq![n as usize]
        },
        _ => {
            &&& after == before
            &&& targets == Seq::new(before.len(), |i: int| i as usize)
        },
    }
}

/// Spreads the notes of one MIDI stream over a fixed number of voices.
#[derive(Clone, Debug)]
pub struct MidiSplitter {
    pub voices: Vec<Option<Voice>>,
}

impl MidiSplitter {
    /// A splitter with `size` idle voices.
    pub fn new(size: usize) -> (res: Self)
        ensures
            res.voices@ == Seq::new(size as nat, |i: int| None::<Voice>),
    {
        let mut voices: Vec<Option<Voice>> = Vec::new();
        let mut i: usize = 0;
        while i < size
            invariant
                i <= size,
                voices@ == Seq::new(i as nat, |j: int| None::<Voice>),
            decreases size - i,
        {
            voices.push(None);
            i = i + 1;
            proof {
                assert(voices@ =~= Seq::new(i as nat, |j: int| None::<Voice>));
            }
        }
        MidiSplitter { voices }
    }

    fn age_all(&mut self)
        requires
            ages_bounded(old(self).voices@),
        ensures
            final(self).voices@ == aged(old(self).voices@),
    {
        let ghost before = self.voices@;
        let mut i: usize = 0;
        while i < self.voices.len()
            invariant
                before == old(self).voices@,
                ages_bounded(before),
                i <= self.voices.len(),
                self.voices.len() == before.len(),
                forall|j: int| 0 <= j < i ==> self.voices@[j] == aged(before)[j],
                forall|j: int| i <= j < before.len() ==> self.voices@[j] == before[j],
            decreases self.voices.len() - i,
        {
            let slot = self.voices[i];
            match slot {
                Some(v) => {
                    assert(rank(before[i as int]) < u32::MAX);
                    self.voices.set(i, Some(Voice { ord: v.ord + 1, key: v.key }));
                },
                None => {},
            }
            i = i + 1;
        }
        proof {
            assert(self.voices@ =~= aged(before));
        }
    }

    fn pick(&self) -> (res: usize)
        requires
            self.voices.len() > 0,
        ensures
            is_pick(self.voices@, res as int),
    {
        let mut best: usize = 0;
        let mut i: usize = 1;
        while i < self.voices.len()
            invariant
                1 <= i <= self.voices.len(),
                best < i,
                forall|j: int| 0 <= j < i ==> rank(#[trigger] self.voices@[j]) <= rank(
                    self.voices@[best as int],
                ),
                forall|j: int| best < j < i ==> rank(#[trigger] self.voices@[j]) < rank(
                    self.voices@[best as int],
                ),
            decreases self.voices.len() - i,
        {
            let r_i = match self.voices[i] {
                Some(v) => v.ord,
                None => u32::MAX,
            };
            let r_best = match self.voices[best] {
                Some(v) => v.ord,
                None => u32::MAX,
            };
            if r_i >= r_best {
                best = i;
            }
            i = i + 1;
        }
        best
    }

    fn find_key(&self, key: u8) -> (res: Option<usize>)
        ensures
            res matches Some(n) ==> first_sounding(self.voices@, key, n as int),
            res is None ==> silent(self.voices@, key),
    {
        let mut i: usize = 0;
        while i < self.voices.len()
            invariant
                i <= self.voices.len(),
                forall|j: int| 0 <= j < i ==> !sounds(#[trigger] self.voices@[j], key),
            decreases self.voices.len() - i,
        {
            match self.voices[i] {
                Some(v) => {
                    if v.key == key {
                        return Some(i);
                    }
                },
                None => {},
            }
            i = i + 1;
        }
        None
    }

    /// Routes one message and returns the voices it is sent to.
    ///
    /// A note-on goes to the idle voice or, when none is idle, to the oldest
    /// one (the last of equals), which then sounds its key; every other sounding
    /// voice ages by one. A note-off goes to the first voice sounding its key,
    /// which falls idle; an aftertouch goes to that voice too. Controller,
    /// program, channel aftertouch and pitch bend messages go to every voice.
    pub fn route(&mut self, msg: MidiMessage) -> (targets: Vec<usize>)
        requires
            msg is NoteOn ==> ages_bounded(old(self).voices@),
        ensures
            routes(old(self).voices@, msg, targets@, final(self).voices@),
            final(self).voices@.len() == old(self).voices@.len(),
            forall|k: int| 0 <= k < targets@.len() ==> #[trigger] targets@[k] < old(self).voices@.len(),
    {
        let mut targets: Vec<usize> = Vec::new();
        match msg {
            MidiMessage::NoteOn { key, .. } => {
                self.age_all();
                proof {
                    if self.voices@.len() == 0 {
                        assert(self.voices@ =~= old(self).voices@);
                    }
                }
                if self.voices.len() > 0 {
                    let n = self.pick();
                    targets.push(n);
                    self.voices.set(n, Some(Voice { ord: 0, key }));
                    proof {
                        assert(targets@ =~= seq![n]);
                    }
                }
            },
            MidiMessage::NoteOff { key, .. } => {
                let found = self.find_key(key);
                if let Some(n) = found {
                    targets.push(n);
                    self.voices.set(n, None);
                    proof {
                        assert(targets@ =~= seq![n]);
                        assert forall|m: int| first_sounding(old(self).voices@, key, m) implies m
                            == n as int by {
                            if m < n as int {
                                assert(!sounds(old(self).voices@[m], key));
                            } else if m > n as int {
                                assert(!sounds(old(self).voices@[n as int], key));
                            }
                        }
                    }
                }
            },
            MidiMessage::Aftertouch { key, .. } => {
                let found = self.find_key(key);
                if let Some(n) = found {
                    targets.push(n);
                    proof {
                        assert(targets@ =~= seq![n]);
                        assert forall|m: int| first_sounding(old(self).voices@, key, m) implies m
                            == n as int by {
                            if m < n as int {
                                assert(!sounds(old(self).voices@[m], key));
                            } else if m > n as int {
                                assert(!sounds(old(self).voices@[n as int], key));
                            }
                        }
                    }
                }
            },
            _ => {
                let mut i: usize = 0;
                while i < self.voices.len()
                    invariant
                        i <= self.voices.len(),
                        self.voices@ == old(self).voices@,
                        targets@ == Seq::new(i as nat, |j: int| j as usize),
                    decreases self.voices.len() - i,
                {
                    targets.push(i);
                    i = i + 1;
                    proof {
                        assert(targets@ =~= Seq::new(i as nat, |j: int| j as usize));
                    }
                }
            },
        }
        targets
    }
}

/// While some voice is idle and every sounding voice is at least two
/// note-ons away from the age limit, a note-on is played by an idle voice.
pub proof fn law_note_on_takes_idle_voice(voices: Seq<Option<Voice>>, n: int)
    requires
        exists|j: int| 0 <= j < voices.len() && voices[j] is None,
        forall|j: int| 0 <= j < voices.len() && (#[trigger] voices[j]) is Some ==> voices[j]->0.ord < u32::MAX - 1,
        is_pick(aged(voices), n),
    ensures
        voices[n] is None,
{
    let j = choose|j: int| 0 <= j < voices.len() && voices[j] is None;
    assert(aged(voices)[j] is None);
    assert(rank(aged(voices)[j]) == u32::MAX);
    if voices[n] is Some {
        assert(rank(aged(voices)[n]) < u32::MAX);
        assert(rank(aged(voices)[j]) <= rank(aged(voices)[n]));
    }
}

/// When no voice sounds a key, the note-on of that key and the note-off that
/// follows it reach the same voice, which then falls idle.
pub proof fn law_note_off_follows_note_on(voices: Seq<Option<Voice>>, key: u8, n: int)
    requires
        silent(voices, key),
        is_pick(aged(voices), n),
    ensures
        first_sounding(aged(voices).update(n, Some(Voice { ord: 0, key })), key, n),
{
    let after = aged(voices).update(n, Some(Voice { ord: 0, key }));
    assert forall|j: int| 0 <= j < n implies !sounds(#[trigger] after[j], key) by {
        assert(!sounds(voices[j], key));
        assert(after[j] == aged(voices)[j]);
    }
}

/// `j` is the first pair of `mapping` whose editor node is `id`.
pub open spec fn first_pair_of(mapping: Seq<(u64, u64)>, id: u64, j: int) -> bool {
    &&& 0 <= j < mapping.len()
    &&& mapping[j].0 == id
    &&& forall|k: int| 0 <= k < j ==> (#[trigger] mapping[k]).0 != id
}

/// The played node of the template, if any, has a pair in `mapping`, and
/// the first such pair holds valid index bits.
pub open spec fn playback_found(mapping: Seq<(u64, u64)>, play: Option<(u64, usize)>) -> bool {
    play matches Some((id, _)) ==> exists|j: int|
        first_pair_of(mapping, id, j) && #[trigger] mapping[j].1 >= 0x1_0000_0000
}

/// The control state of a polyphonic instrument: its MIDI input, the
/// splitter over its voices, how many voice runtimes run (each a copy of the
/// template), and which output of them is played.
pub struct PolyphonicInstrument {
    pub midi_in: MidiInput,
    pub splitter: MidiSplitter,
    pub voice_count: usize,
    pub playback_port: Option<OutputPort>,
}

/// A new instrument: no voice runtime yet, a splitter over four voices.
pub fn polyphonic() -> (res: PolyphonicInstrument)
    ensures
        res.midi_in.wf(),
        res.midi_in.filter() is None,
        res.midi_in.held() == Set::<(u8, u8)>::empty(),
        res.midi_in.queue() == Seq::<(u8, MidiMessage)>::empty(),
        res.splitter.voices@ == Seq::new(4, |i: int| None::<Voice>),
        res.voice_count == 0,
        res.playback_port is None,
{
    PolyphonicInstrument {
        midi_in: MidiInput::new(),
        splitter: MidiSplitter::new(4),
        voice_count: 0,
        playback_port: None,
    }
}

impl PolyphonicInstrument {
    /// Whether the voices are rebuilt in this step, given the voice count
    /// and the topology flag of the settings, and the flag afterwards. A
    /// changed voice count rebuilds and leaves the flag as it is; otherwise
    /// the flag decides and drops.
    pub fn must_rebuild(&self, voices: u8, topology_changed: bool) -> (res: (bool, bool))
        ensures
            res == if self.voice_count != voices as usize {
                (true, topology_changed)
            } else {
                (topology_changed, false)
            },
    {
        if self.voice_count != voices as usize {
            (true, topology_changed)
        } else {
            (topology_changed, false)
        }
    }

    /// The voices were rebuilt from the template: `voices` runtimes, all
    /// idle, playing output `play` of the template, whose node is looked up
    /// in the template's pairs `mapping` (the first pair of the node counts).
    pub fn rebuilt(&mut self, voices: u8, play: Option<(u64, usize)>, mapping: &Vec<(u64, u64)>)
        requires
            playback_found(mapping@, play),
        ensures
            final(self).voice_count == voices,
            final(self).splitter.voices@ == Seq::new(voices as nat, |i: int| None::<Voice>),
            final(self).midi_in == old(self).midi_in,
            play is None ==> final(self).playback_port is None,
            forall|id: u64, port: usize, j: int|
                play == Some((id, port)) && first_pair_of(mapping@, id, j) ==> final(self).playback_port
                    == Some(OutputPort { node: mapping@[j].1, port }),
    {
        self.playback_port = match play {
            Some((id, port)) => {
                let mut j: usize = 0;
                while j < mapping.len() && mapping[j].0 != id
                    invariant
                        j <= mapping@.len(),
                        playback_found(mapping@, play),
                        play == Some((id, port)),
                        forall|k: int| 0 <= k < j ==> (#[trigger] mapping@[k]).0 != id,
                    decreases mapping.len() - j,
                {
                    j = j + 1;
                }
                proof {
                    let w = choose|w: int| first_pair_of(mapping@, id, w) && #[trigger] mapping@[w].1 >= 0x1_0000_0000;
                    if (j as int) < w {
                        assert(mapping@[j as int].0 != id);
                    } else if (j as int) > w {
                        assert(mapping@[w].0 != id);
                    }
                    assert(j as int == w);
                    assert forall|v: int| first_pair_of(mapping@, id, v) implies v == j as int by {
                        if v < j as int {
                            assert(mapping@[v].0 != id);
                        } else if v > j as int {
                            assert(mapping@[j as int].0 != id);
                        }
                    }
                }
                Some(OutputPort { node: mapping[j].1, port })
            },
            None => None,
        };
        self.voice_count = voices as usize;
        self.splitter = MidiSplitter::new(voices as usize);
    }

    /// One step of MIDI: the input takes what the port received, and the
    /// message it hands out, if any, is routed to the voices it reaches.
    pub fn route_input(&mut self, recv: MidiRecv) -> (res: (Option<(u8, MidiMessage)>, Vec<usize>))
        requires
            old(self).midi_in.wf(),
            old(self).midi_in.hands_note_on(recv) ==> ages_bounded(old(self).splitter.voices@),
        ensures
            final(self).midi_in.wf(),
            old(self).midi_in.pops(recv, res.0, final(self).midi_in),
            match res.0 {
                Some((_, m)) => routes(old(self).splitter.voices@, m, res.1@, final(self).splitter.voices@),
                None => res.1@.len() == 0 && final(self).splitter.voices@ == old(self).splitter.voices@,
            },
            final(self).splitter.voices@.len() == old(self).splitter.voices@.len(),
            forall|k: int| 0 <= k < res.1@.len() ==> #[trigger] res.1@[k] < old(self).splitter.voices@.len(),
            final(self).voice_count == old(self).voice_count,
            final(self).playback_port == old(self).playback_port,
    {
        let msg = self.midi_in.pop_msg(recv);
        proof {
            if msg matches Some((_, m)) && m is NoteOn {
                old(self).midi_in.lemma_note_on_handed(recv, msg, self.midi_in);
            }
        }
        let targets = match msg {
            Some((_, m)) => self.splitter.route(m),
            None => Vec::new(),
        };
        (msg, targets)
    }
}

} // verus!
