use std::collections::VecDeque;

use vstd::prelude::*;

use crate::midi::MidiMessage;

verus! {

/// The last MIDI messages seen on an output, newest first, at most `len`.
pub struct MidiScope {
    memory: VecDeque<(u8, MidiMessage)>,
    len: usize,
}

/// The memory after taking in `data`, one message after the other.
pub open spec fn remembered(
    memory: Seq<(u8, MidiMessage)>,
    len: usize,
    data: Seq<(u8, MidiMessage)>,
) -> Seq<(u8, MidiMessage)>
    decreases data.len(),
{
    if data.len() == 0 {
        memory
    } else {
        let before = remembered(memory, len, data.drop_last());
        let pushed = seq![data.last()] + before;
        if pushed.len() > len {
            pushed.take(len as int)
        } else {
            pushed
        }
    }
}

impl MidiScope {
    /// How many messages are kept.
    pub closed spec fn limit(&self) -> usize {
        self.len
    }

    pub fn len(&self) -> (res: usize)
        ensures
            res == self.limit(),
    {
        self.len
    }

    /// Sets how many messages are kept; the memory shrinks at the next feed.
    pub fn set_len(&mut self, len: usize)
        ensures
            final(self).limit() == len,
            final(self).shown() == old(self).shown(),
    {
        self.len = len;
    }

    pub closed spec fn shown(&self) -> Seq<(u8, MidiMessage)> {
        self.memory@
    }

    /// An empty scope keeping 12 messages.
    pub fn new() -> (res: Self)
        ensures
            res.shown() == Seq::<(u8, MidiMessage)>::empty(),
            res.limit() == 12,
    {
        MidiScope { memory: VecDeque::new(), len: 12 }
    }

    /// The messages shown, newest first.
    pub fn messages(&self) -> (res: Vec<(u8, MidiMessage)>)
        ensures
            res@ == self.shown(),
    {
        let mut res: Vec<(u8, MidiMessage)> = Vec::new();
        let mut i: usize = 0;
        while i < self.memory.len()
            invariant
                i <= self.memory@.len(),
                res@ == self.memory@.take(i as int),
            decreases self.memory.len() - i,
        {
            res.push(self.memory[i]);
            i = i + 1;
            proof {
                assert(res@ =~= self.memory@.take(i as int));
            }
        }
        proof {
            assert(self.memory@.take(self.memory@.len() as int) =~= self.memory@);
        }
        res
    }

    /// Takes in messages in order: each goes to the front, and the oldest
    /// ones go once there are more than `len`.
    pub fn feed(&mut self, data: Vec<(u8, MidiMessage)>)
        ensures
            final(self).limit() == old(self).limit(),
            final(self).shown() == remembered(old(self).shown(), old(self).limit(), data@),
    {
        let mut i: usize = 0;
        while i < data.len()
            invariant
                i <= data@.len(),
                self.len == old(self).len,
                self.memory@ == remembered(old(self).memory@, self.len, data@.take(i as int)),
            decreases data.len() - i,
        {
            let ghost before = self.memory@;
            self.memory.push_front(data[i]);
            let ghost pushed = self.memory@;
            while self.memory.len() > self.len
                invariant
                    self.len == old(self).len,
                    pushed.len() > self.len ==> self.memory@.len() >= self.len,
                    pushed.len() <= self.len ==> self.memory@.len() == pushed.len(),
                    self.memory@ == pushed.take(self.memory@.len() as int),
                    pushed.len() >= self.memory@.len(),
                decreases self.memory.len(),
            {
                let _ = self.memory.pop_back();
                proof {
                    assert(self.memory@ =~= pushed.take(self.memory@.len() as int));
                }
            }
            proof {
                assert(data@.take(i + 1).drop_last() =~= data@.take(i as int));
                assert(data@.take(i + 1).last() == data@[i as int]);
                assert(pushed =~= seq![data@[i as int]] + before);
                if pushed.len() > self.len {
                    assert(self.memory@.len() == self.len);
                } else {
                    assert(self.memory@ =~= pushed);
                }
            }
            i = i + 1;
        }
        proof {
            assert(data@.take(data@.len() as int) =~= data@);
        }
    }
}

/// Once a message was fed, the scope shows at most `len` messages, the
/// newest first.
pub proof fn law_scope_keeps_newest(
    memory: Seq<(u8, MidiMessage)>,
    len: usize,
    data: Seq<(u8, MidiMessage)>,
)
    requires
        data.len() > 0,
    ensures
        remembered(memory, len, data).len() <= len,
        len > 0 ==> remembered(memory, len, data)[0] == data.last(),
{
    let before = remembered(memory, len, data.drop_last());
    let pushed = seq![data.last()] + before;
    assert(pushed[0] == data.last());
}

/// The table of note names, by key.
pub open spec fn note_names() -> Seq<&'static str> {
    seq![
        "G♯9", "G9", "F♯9", "F9", "E9", "D♯9", "D9", "C♯9", "C9", "B8", "A♯8", "A8",
        "G♯8", "G8", "F♯8", "F8", "E8", "D♯8", "D8", "C♯8", "C8", "B7", "A♯7", "A7",
        "G♯7", "G7", "F♯7", "F7", "E7", "D♯7", "D7", "C♯7", "C7", "B6", "A♯6", "A6",
        "G♯6", "G6", "F♯6", "F6", "E6", "D♯6", "D6", "C♯6", "C6", "B5", "A♯5", "A5",
        "G♯5", "G5", "F♯5", "F5", "E5", "D♯5", "D5", "C♯5", "C5", "B4", "A♯4", "A4",
        "G♯4", "G4", "F♯4", "F4", "E4", "D♯4", "D4", "C♯4", "C4", "B3", "A♯3", "A3",
        "G♯3", "G3", "F♯3", "F3", "E3", "D♯3", "D3", "C♯3", "C3", "B2", "A♯2", "A2",
        "G♯2", "G2", "F♯2", "F2", "E2", "D♯2", "D2", "C♯2", "C2", "B1", "A♯1", "A1",
        "G♯1", "G1", "F♯1", "F1", "E1", "D♯1", "D1", "C♯1", "C1", "B0", "A♯0", "A0",
        "G♯0", "G0", "F♯0", "F0", "E0", "D♯0", "D0", "C♯0", "C0", "B1̠", "A♯1̠", "A1̠",
        "G♯1̠", "G1̠", "F♯1̠", "F1̠", "E1̠", "D♯1̠", "D1̠",
    ]
}

/// The name the scope shows for a key, read from a table of 127 names that
/// runs from `G♯9` at key 0 down to `D1̠` at key 126. Key 127 has no entry.
pub fn midi_note_to_str(note: u8) -> (res: &'static str)
    requires
        note < 127,
    ensures
        res == note_names()[note as int],
{
    let notes: [&'static str; 127] = [
        "G♯9", "G9", "F♯9", "F9", "E9", "D♯9", "D9", "C♯9", "C9", "B8", "A♯8", "A8",
        "G♯8", "G8", "F♯8", "F8", "E8", "D♯8", "D8", "C♯8", "C8", "B7", "A♯7", "A7",
        "G♯7", "G7", "F♯7", "F7", "E7", "D♯7", "D7", "C♯7", "C7", "B6", "A♯6", "A6",
        "G♯6", "G6", "F♯6", "F6", "E6", "D♯6", "D6", "C♯6", "C6", "B5", "A♯5", "A5",
        "G♯5", "G5", "F♯5", "F5", "E5", "D♯5", "D5", "C♯5", "C5", "B4", "A♯4", "A4",
        "G♯4", "G4", "F♯4", "F4", "E4", "D♯4", "D4", "C♯4", "C4", "B3", "A♯3", "A3",
        "G♯3", "G3", "F♯3", "F3", "E3", "D♯3", "D3", "C♯3", "C3", "B2", "A♯2", "A2",
        "G♯2", "G2", "F♯2", "F2", "E2", "D♯2", "D2", "C♯2", "C2", "B1", "A♯1", "A1",
        "G♯1", "G1", "F♯1", "F1", "E1", "D♯1", "D1", "C♯1", "C1", "B0", "A♯0", "A0",
        "G♯0", "G0", "F♯0", "F0", "E0", "D♯0", "D0", "C♯0", "C0", "B1̠", "A♯1̠", "A1̠",
        "G♯1̠", "G1̠", "F♯1̠", "F1̠", "E1̠", "D♯1̠", "D1̠",
    ];
    notes[note as usize]
}

} // verus!
