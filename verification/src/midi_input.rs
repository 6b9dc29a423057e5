use std::collections::VecDeque;

use vstd::prelude::*;

use crate::midi::MidiMessage;

verus! {

/// What a MIDI input port received in one sample step.
#[derive(Clone, Copy, Debug, PartialEq, Eq, Structural)]
pub enum MidiRecv {
    /// Nothing is connected to the port.
    Disconnected,
    /// A message arrived on the given channel.
    Midi { channel: u8, message: MidiMessage },
    /// The port is connected but carries no MIDI message this step.
    Nothing,
}

/// The note-off that releases a held `(channel, key)` when the port is unplugged.
pub open spec fn release_of(held: (u8, u8)) -> (u8, MidiMessage) {
    (held.0, MidiMessage::NoteOff { key: held.1, vel: 127 })
}

/// A MIDI input that filters by channel, keeps track of the notes that are
/// currently held and queues the messages it hands out one per step.
pub struct MidiInput {
    channel: Option<u8>,
    on_keys: Vec<(u8, u8)>,
    out: VecDeque<(u8, MidiMessage)>,
}

impl MidiInput {
    /// Only messages of this channel pass, or all when `None`.
    pub closed spec fn filter(&self) -> Option<u8> {
        self.channel
    }

    /// The `(channel, key)` pairs whose note is held.
    pub closed spec fn held(&self) -> Set<(u8, u8)> {
        self.on_keys@.to_set()
    }

    /// The messages queued but not yet handed out, oldest first.
    pub closed spec fn queue(&self) -> Seq<(u8, MidiMessage)> {
        self.out@
    }

    pub closed spec fn wf(&self) -> bool {
        self.on_keys@.no_duplicates()
    }

    /// The queue and held set after `recv` is taken in, before one message leaves.
    pub open spec fn taken_in(
        channel: Option<u8>,
        held: Set<(u8, u8)>,
        queue: Seq<(u8, MidiMessage)>,
        recv: MidiRecv,
    ) -> (Set<(u8, u8)>, Seq<(u8, MidiMessage)>) {
        match recv {
            MidiRecv::Midi { channel: chan, message } => {
                if channel is Some && channel->0 != chan {
                    (held, queue)
                } else {
                    match message {
                        MidiMessage::NoteOn { key, vel } => {
                            if vel == 0 {
                                (
                                    held.remove((chan, key)),
                                    queue.push((chan, MidiMessage::NoteOff { key, vel: 64 })),
                                )
                            } else {
                                (held.insert((chan, key)), queue.push((chan, message)))
                            }
                        },
                        MidiMessage::NoteOff { key, .. } => (
                            held.remove((chan, key)),
                            queue.push((chan, message)),
                        ),
                        _ => (held, queue.push((chan, message))),
                    }
                }
            },
            _ => (held, queue),
        }
    }

    pub fn new() -> (res: Self)
        ensures
            res.wf(),
            res.filter() is None,
            res.held() == Set::<(u8, u8)>::empty(),
            res.queue() == Seq::<(u8, MidiMessage)>::empty(),
    {
        let res = MidiInput { channel: None, on_keys: Vec::new(), out: VecDeque::new() };
        proof {
            assert(res.on_keys@.to_set() =~= Set::<(u8, u8)>::empty());
        }
        res
    }

    fn hold(&mut self, chan: u8, key: u8)
        requires
            old(self).wf(),
        ensures
            final(self).wf(),
            final(self).held() == old(self).held().insert((chan, key)),
            final(self).out == old(self).out,
            final(self).filter() == old(self).filter(),
    {
        let ghost before = self.on_keys@;
        let mut i: usize = 0;
        while i < self.on_keys.len()
            invariant
                self.on_keys@ == before,
                before == old(self).on_keys@,
                before.no_duplicates(),
                self.channel == old(self).channel,
                self.out == old(self).out,
                i <= self.on_keys.len(),
                forall|j: int| 0 <= j < i ==> self.on_keys@[j] != (chan, key),
            decreases self.on_keys.len() - i,
        {
            if self.on_keys[i].0 == chan && self.on_keys[i].1 == key {
                proof {
                    assert(before.to_set().contains((chan, key)));
                    assert(before.to_set().insert((chan, key)) =~= before.to_set());
                }
                return;
            }
            i = i + 1;
        }
        self.on_keys.push((chan, key));
        proof {
            assert(!before.contains((chan, key)));
            assert(self.on_keys@ == before.push((chan, key)));
            assert(self.on_keys@.to_set() =~= before.to_set().insert((chan, key))) by {
                assert forall|k: (u8, u8)| self.on_keys@.to_set().contains(k)
                    <==> before.to_set().insert((chan, key)).contains(k) by {
                    if k == (chan, key) {
                        assert(self.on_keys@[before.len() as int] == k);
                    } else if before.contains(k) {
                        let j = choose|j: int| 0 <= j < before.len() && before[j] == k;
                        assert(self.on_keys@[j] == k);
                    }
                }
            }
            assert forall|a: int, b: int|
                0 <= a < self.on_keys@.len() && 0 <= b < self.on_keys@.len() && a != b
                implies self.on_keys@[a] != self.on_keys@[b] by {
                if a < before.len() && b < before.len() {
                } else if a == before.len() {
                    assert(self.on_keys@[b] == before[b]);
                } else {
                    assert(self.on_keys@[a] == before[a]);
                }
            }
        }
    }

    fn release(&mut self, chan: u8, key: u8)
        requires
            old(self).wf(),
        ensures
            final(self).wf(),
            final(self).held() == old(self).held().remove((chan, key)),
            final(self).out == old(self).out,
            final(self).filter() == old(self).filter(),
    {
        let ghost before = self.on_keys@;
        let mut i: usize = 0;
        while i < self.on_keys.len()
            invariant
                self.on_keys@ == before,
                before == old(self).on_keys@,
                self.channel == old(self).channel,
                self.out == old(self).out,
                before.no_duplicates(),
                i <= self.on_keys.len(),
                forall|j: int| 0 <= j < i ==> self.on_keys@[j] != (chan, key),
            decreases self.on_keys.len() - i,
        {
            if self.on_keys[i].0 == chan && self.on_keys[i].1 == key {
                let _ = self.on_keys.remove(i);
                proof {
                    let after = self.on_keys@;
                    assert(after == before.remove(i as int));
                    assert forall|k: (u8, u8)| after.to_set().contains(k)
                        <==> before.to_set().remove((chan, key)).contains(k) by {
                        assert(after.to_set().contains(k) == after.contains(k));
                        assert(before.to_set().contains(k) == before.contains(k));
                        if after.contains(k) {
                            let j = choose|j: int| 0 <= j < after.len() && after[j] == k;
                            if j < i {
                                assert(before[j] == k);
                                assert(j != i);
                            } else {
                                assert(before[j + 1] == k);
                            }
                            assert(k != (chan, key));
                        }
                        if before.contains(k) && k != (chan, key) {
                            let j = choose|j: int| 0 <= j < before.len() && before[j] == k;
                            if j < i {
                                assert(after[j] == k);
                            } else {
                                assert(j != i);
                                assert(after[j - 1] == k);
                            }
                        }
                    }
                    assert(after.to_set() =~= before.to_set().remove((chan, key)));
                    assert(self.held() == after.to_set());
                    assert(old(self).held() == before.to_set());
                    assert forall|a: int, b: int|
                        0 <= a < after.len() && 0 <= b < after.len() && a != b
                        implies after[a] != after[b] by {
                        let a1 = if a < i { a } else { a + 1 };
                        let b1 = if b < i { b } else { b + 1 };
                        assert(after[a] == before[a1]);
                        assert(after[b] == before[b1]);
                    }
                }
                return;
            }
            i = i + 1;
        }
        proof {
            assert(!before.contains((chan, key)));
            assert(before.to_set().remove((chan, key)) =~= before.to_set());
        }
    }

    /// The channel filter currently set.
    pub fn channel(&self) -> (res: Option<u8>)
        ensures
            res == self.filter(),
    {
        self.channel
    }

    /// Sets the channel filter; held notes and queued messages stay.
    pub fn set_channel(&mut self, channel: Option<u8>)
        requires
            old(self).wf(),
        ensures
            final(self).wf(),
            final(self).filter() == channel,
            final(self).held() == old(self).held(),
            final(self).queue() == old(self).queue(),
    {
        self.channel = channel;
    }

    /// What one call of `pop_msg` does: `after` is the input after it took
    /// in `recv` and handed out `res`.
    pub open spec fn pops(self, recv: MidiRecv, res: Option<(u8, MidiMessage)>, after: Self) -> bool {
        &&& after.filter() == self.filter()
        &&& recv is Disconnected ==> after.held() == Set::<(u8, u8)>::empty()
        &&& !(recv is Disconnected) ==> after.held() == Self::taken_in(
            self.filter(),
            self.held(),
            self.queue(),
            recv,
        ).0
        &&& exists|queued: Seq<(u8, MidiMessage)>|
            {
                &&& (recv is Disconnected ==> exists|order: Seq<(u8, u8)>|
                    {
                        &&& order.no_duplicates()
                        &&& order.to_set() == self.held()
                        &&& queued == self.queue() + order.map_values(|h: (u8, u8)| release_of(h))
                    })
                &&& (!(recv is Disconnected) ==> queued == Self::taken_in(
                    self.filter(),
                    self.held(),
                    self.queue(),
                    recv,
                ).1)
                &&& (queued.len() == 0 ==> res is None && after.queue() == queued)
                &&& (queued.len() > 0 ==> res == Some(queued[0]) && after.queue()
                    == queued.drop_first())
            }
    }

    /// The message handed out after taking in `recv` is a note-on: the
    /// oldest of the queue then is one. (When unplugged, the note-offs of the
    /// held notes go after the queue.)
    pub open spec fn hands_note_on(self, recv: MidiRecv) -> bool {
        let queued = if recv is Disconnected {
            self.queue()
        } else {
            Self::taken_in(self.filter(), self.held(), self.queue(), recv).1
        };
        queued.len() > 0 && queued[0].1 is NoteOn
    }

    /// A note-on handed out by a step is the one `hands_note_on` tells of.
    pub proof fn lemma_note_on_handed(self, recv: MidiRecv, res: Option<(u8, MidiMessage)>, after: Self)
        requires
            self.pops(recv, res, after),
            res matches Some((_, m)) && m is NoteOn,
        ensures
            self.hands_note_on(recv),
    {
        let queued = choose|queued: Seq<(u8, MidiMessage)>|
            {
                &&& (recv is Disconnected ==> exists|order: Seq<(u8, u8)>|
                    {
                        &&& order.no_duplicates()
                        &&& order.to_set() == self.held()
                        &&& queued == self.queue() + order.map_values(|h: (u8, u8)| release_of(h))
                    })
                &&& (!(recv is Disconnected) ==> queued == Self::taken_in(
                    self.filter(),
                    self.held(),
                    self.queue(),
                    recv,
                ).1)
                &&& (queued.len() == 0 ==> res is None && after.queue() == queued)
                &&& (queued.len() > 0 ==> res == Some(queued[0]) && after.queue()
                    == queued.drop_first())
            };
        if recv is Disconnected {
            let order = choose|order: Seq<(u8, u8)>|
                {
                    &&& order.no_duplicates()
                    &&& order.to_set() == self.held()
                    &&& queued == self.queue() + order.map_values(|h: (u8, u8)| release_of(h))
                };
            if self.queue().len() == 0 {
                assert(queued[0] == release_of(order[0]));
            } else {
                assert(queued[0] == self.queue()[0]);
            }
        }
    }

    /// Takes in what the port received and hands out the oldest queued message.
    ///
    /// When the port is disconnected every held note is released with a
    /// note-off of velocity 127 (in some order), and the held set empties.
    /// A note-on of velocity 0 is turned into a note-off of velocity 64.
    /// Messages of a channel other than the filter are dropped.
    pub fn pop_msg(&mut self, recv: MidiRecv) -> (res: Option<(u8, MidiMessage)>)
        requires
            old(self).wf(),
        ensures
            final(self).wf(),
            old(self).pops(recv, res, *final(self)),
    {
        let ghost held0 = self.held();
        let ghost queue0 = self.queue();
        match recv {
            MidiRecv::Disconnected => {
                let mut keys = Vec::new();
                std::mem::swap(&mut keys, &mut self.on_keys);
                let mut i: usize = 0;
                while i < keys.len()
                    invariant
                        i <= keys.len(),
                        self.on_keys@ == Seq::<(u8, u8)>::empty(),
                        self.channel == old(self).channel,
                        self.out@ == queue0 + keys@.take(i as int).map_values(
                            |h: (u8, u8)| release_of(h),
                        ),
                    decreases keys.len() - i,
                {
                    let (chan, key) = keys[i];
                    self.out.push_back((chan, MidiMessage::NoteOff { key, vel: 127 }));
                    proof {
                        assert(keys@.take(i + 1) == keys@.take(i as int).push(keys@[i as int]));
                        assert(keys@.take(i + 1).map_values(|h: (u8, u8)| release_of(h))
                            =~= keys@.take(i as int).map_values(|h: (u8, u8)| release_of(h)).push(
                            release_of(keys@[i as int])));
                    }
                    i = i + 1;
                }
                proof {
                    assert(keys@.take(keys.len() as int) =~= keys@);
                    assert(self.on_keys@.to_set() =~= Set::<(u8, u8)>::empty());
                }
            },
            MidiRecv::Midi { channel: chan, message } => {
                let pass = match self.channel {
                    Some(filter) => filter == chan,
                    None => true,
                };
                if pass {
                    match message {
                        MidiMessage::NoteOn { key, vel } => {
                            if vel == 0 {
                                self.out.push_back((chan, MidiMessage::NoteOff { key, vel: 64 }));
                                self.release(chan, key);
                            } else {
                                self.out.push_back((chan, message));
                                self.hold(chan, key);
                            }
                        },
                        MidiMessage::NoteOff { key, .. } => {
                            self.out.push_back((chan, message));
                            self.release(chan, key);
                        },
                        _ => {
                            self.out.push_back((chan, message));
                        },
                    }
                }
            },
            MidiRecv::Nothing => {},
        }
        let ghost queued = self.out@;
        let res = self.out.pop_front();
        proof {
            if queued.len() > 0 {
                assert(self.out@ == queued.drop_first());
            }
        }
        res
    }
}

/// The messages an input still owes after a step: the one handed out, then
/// those left queued.
pub open spec fn owed(res: Option<(u8, MidiMessage)>, after: MidiInput) -> Seq<(u8, MidiMessage)> {
    match res {
        Some(m) => seq![m] + after.queue(),
        None => after.queue(),
    }
}

/// A note that was switched on and is still held when the port is
/// unplugged is switched off by a note-off of velocity 127.
pub proof fn law_unplug_releases_note(
    m0: MidiInput,
    r1: Option<(u8, MidiMessage)>,
    m1: MidiInput,
    r2: Option<(u8, MidiMessage)>,
    m2: MidiInput,
    chan: u8,
    key: u8,
    vel: u8,
)
    requires
        vel > 0,
        m0.filter() is None || m0.filter() == Some(chan),
        m0.pops(MidiRecv::Midi { channel: chan, message: MidiMessage::NoteOn { key, vel } }, r1, m1),
        m1.pops(MidiRecv::Disconnected, r2, m2),
    ensures
        owed(r2, m2).contains((chan, MidiMessage::NoteOff { key, vel: 127 })),
        m2.held() == Set::<(u8, u8)>::empty(),
{
    assert(m1.held().contains((chan, key)));
    let queued = choose|queued: Seq<(u8, MidiMessage)>|
        {
            &&& (exists|order: Seq<(u8, u8)>|
                {
                    &&& order.no_duplicates()
                    &&& order.to_set() == m1.held()
                    &&& queued == m1.queue() + order.map_values(|h: (u8, u8)| release_of(h))
                })
            &&& (queued.len() == 0 ==> r2 is None && m2.queue() == queued)
            &&& (queued.len() > 0 ==> r2 == Some(queued[0]) && m2.queue() == queued.drop_first())
        };
    let order = choose|order: Seq<(u8, u8)>|
        {
            &&& order.no_duplicates()
            &&& order.to_set() == m1.held()
            &&& queued == m1.queue() + order.map_values(|h: (u8, u8)| release_of(h))
        };
    assert(order.to_set().contains((chan, key)));
    let j = choose|j: int| 0 <= j < order.len() && order[j] == (chan, key);
    let at = m1.queue().len() + j;
    assert(queued[at] == release_of(order[j]));
    assert(owed(r2, m2) =~= queued);
    assert(owed(r2, m2)[at] == (chan, MidiMessage::NoteOff { key, vel: 127 }));
}

/// A note-on of velocity 0 does what a note-off of velocity 64 does.
pub proof fn law_silent_note_on_is_note_off(m: MidiInput, chan: u8, key: u8)
    ensures
        MidiInput::taken_in(
            m.filter(),
            m.held(),
            m.queue(),
            MidiRecv::Midi { channel: chan, message: MidiMessage::NoteOn { key, vel: 0 } },
        ) == MidiInput::taken_in(
            m.filter(),
            m.held(),
            m.queue(),
            MidiRecv::Midi { channel: chan, message: MidiMessage::NoteOff { key, vel: 64 } },
        ),
{
}

/// The messages a received value adds to the queue of an input with
/// channel filter `filter`, when the port is connected: a message of the
/// filtered channel, a silent note-on turned into a note-off of velocity 64.
pub open spec fn accepted(filter: Option<u8>, recv: MidiRecv) -> Seq<(u8, MidiMessage)> {
    match recv {
        MidiRecv::Midi { channel, message } => {
            if filter is Some && filter->0 != channel {
                Seq::empty()
            } else {
                match message {
                    MidiMessage::NoteOn { key, vel } => if vel == 0 {
                        seq![(channel, MidiMessage::NoteOff { key, vel: 64 })]
                    } else {
                        seq![(channel, message)]
                    },
                    _ => seq![(channel, message)],
                }
            }
        },
        _ => Seq::empty(),
    }
}

/// `added` is what a step of input `m` on `recv` adds to its queue: the
/// accepted message, or, when unplugged, one note-off of velocity 127 per
/// held note, in some order.
pub open spec fn adds(m: MidiInput, recv: MidiRecv, added: Seq<(u8, MidiMessage)>) -> bool {
    &&& !(recv is Disconnected) ==> added == accepted(m.filter(), recv)
    &&& recv is Disconnected ==> exists|order: Seq<(u8, u8)>|
        {
            &&& order.no_duplicates()
            &&& order.to_set() == m.held()
            &&& added == order.map_values(|h: (u8, u8)| release_of(h))
        }
}

/// The messages handed out by the first `n` steps, in order.
pub open spec fn handed(rs: Seq<Option<(u8, MidiMessage)>>, n: int) -> Seq<(u8, MidiMessage)>
    decreases n,
{
    if n <= 0 {
        Seq::empty()
    } else {
        handed(rs, n - 1) + match rs[n - 1] {
            Some(m) => seq![m],
            None => Seq::<(u8, MidiMessage)>::empty(),
        }
    }
}

/// What has passed through the input after `n` steps: the messages handed
/// out, then those still queued.
pub open spec fn stream(
    ms: Seq<MidiInput>,
    rs: Seq<Option<(u8, MidiMessage)>>,
    n: int,
) -> Seq<(u8, MidiMessage)> {
    handed(rs, n) + ms[n].queue()
}

/// One step: the message handed out and the queue left are the old queue
/// and what the step added.
proof fn lemma_step_adds(m: MidiInput, recv: MidiRecv, res: Option<(u8, MidiMessage)>, after: MidiInput)
    requires
        m.pops(recv, res, after),
    ensures
        exists|added: Seq<(u8, MidiMessage)>| adds(m, recv, added) && owed(res, after) == m.queue() + added,
        res is None ==> after.queue().len() == 0,
{
    let queued = choose|queued: Seq<(u8, MidiMessage)>|
        {
            &&& (recv is Disconnected ==> exists|order: Seq<(u8, u8)>|
                {
                    &&& order.no_duplicates()
                    &&& order.to_set() == m.held()
                    &&& queued == m.queue() + order.map_values(|h: (u8, u8)| release_of(h))
                })
            &&& (!(recv is Disconnected) ==> queued == MidiInput::taken_in(
                m.filter(),
                m.held(),
                m.queue(),
                recv,
            ).1)
            &&& (queued.len() == 0 ==> res is None && after.queue() == queued)
            &&& (queued.len() > 0 ==> res == Some(queued[0]) && after.queue() == queued.drop_first())
        };
    assert(owed(res, after) =~= queued);
    if recv is Disconnected {
        let order = choose|order: Seq<(u8, u8)>|
            {
                &&& order.no_duplicates()
                &&& order.to_set() == m.held()
                &&& queued == m.queue() + order.map_values(|h: (u8, u8)| release_of(h))
            };
        let added = order.map_values(|h: (u8, u8)| release_of(h));
        assert(adds(m, recv, added));
    } else {
        let added = accepted(m.filter(), recv);
        assert(queued =~= m.queue() + added);
        assert(adds(m, recv, added));
    }
}

/// Over any run of steps the input behaves as one queue: what has passed
/// through it only grows at its end, by what each step adds (the accepted
/// message, or the note-offs of the held notes when unplugged), and a step
/// hands out nothing only when the queue is empty. So the messages handed
/// out, in order, are a prefix of everything the steps added after the
/// first queue.
#[verifier::spinoff_prover]
#[verifier::rlimit(40)]
pub proof fn law_pops_one_queue(
    ms: Seq<MidiInput>,
    recvs: Seq<MidiRecv>,
    rs: Seq<Option<(u8, MidiMessage)>>,
)
    requires
        run(ms, recvs, rs),
    ensures
        forall|i: int| 0 <= i <= recvs.len() ==> (#[trigger] ms[i]).filter() == ms[0].filter(),
        forall|i: int|
            0 <= i < recvs.len() ==> exists|added: Seq<(u8, MidiMessage)>|
                adds(#[trigger] ms[i], recvs[i], added) && stream(ms, rs, i + 1) == stream(ms, rs, i) + added,
        forall|i: int|
            0 <= i < recvs.len() && !(recvs[i] is Disconnected) ==> stream(ms, rs, i + 1) == stream(
                ms,
                rs,
                i,
            ) + accepted(ms[0].filter(), #[trigger] recvs[i]),
        forall|i: int, j: int|
            0 <= i <= j <= recvs.len() ==> #[trigger] stream(ms, rs, i).is_prefix_of(
                #[trigger] stream(ms, rs, j),
            ),
        forall|i: int| 0 <= i < recvs.len() && (#[trigger] rs[i]) is None ==> ms[i + 1].queue().len() == 0,
{
    assert forall|i: int| 0 <= i <= recvs.len() implies (#[trigger] ms[i]).filter() == ms[0].filter() by {
        lemma_filter_kept(ms, recvs, rs, i);
    }
    assert forall|i: int|
        0 <= i < recvs.len() implies exists|added: Seq<(u8, MidiMessage)>|
            adds(#[trigger] ms[i], recvs[i], added) && stream(ms, rs, i + 1) == stream(ms, rs, i) + added by {
        lemma_stream_step(ms, recvs, rs, i);
    }
    assert forall|i: int|
        0 <= i < recvs.len() && !(recvs[i] is Disconnected) implies stream(ms, rs, i + 1) == stream(
            ms,
            rs,
            i,
        ) + accepted(ms[0].filter(), #[trigger] recvs[i]) by {
        lemma_stream_step(ms, recvs, rs, i);
        lemma_filter_kept(ms, recvs, rs, i);
    }
    assert forall|i: int, j: int|
        0 <= i <= j <= recvs.len() implies #[trigger] stream(ms, rs, i).is_prefix_of(
            #[trigger] stream(ms, rs, j),
        ) by {
        lemma_stream_grows(ms, recvs, rs, i, j);
    }
    assert forall|i: int| 0 <= i < recvs.len() && (#[trigger] rs[i]) is None implies ms[i + 1].queue().len()
        == 0 by {
        lemma_stream_step(ms, recvs, rs, i);
    }
}

/// `ms` are the states of an input through the steps on `recvs`, which
/// hand out `rs`: each step is one call of `pop_msg`.
#[verifier::opaque]
pub open spec fn run(ms: Seq<MidiInput>, recvs: Seq<MidiRecv>, rs: Seq<Option<(u8, MidiMessage)>>) -> bool {
    &&& ms.len() == recvs.len() + 1
    &&& rs.len() == recvs.len()
    &&& forall|i: int| 0 <= i < recvs.len() ==> (#[trigger] ms[i]).pops(recvs[i], rs[i], ms[i + 1])
}

proof fn lemma_filter_kept(
    ms: Seq<MidiInput>,
    recvs: Seq<MidiRecv>,
    rs: Seq<Option<(u8, MidiMessage)>>,
    i: int,
)
    requires
        run(ms, recvs, rs),
        0 <= i <= recvs.len(),
    ensures
        ms[i].filter() == ms[0].filter(),
    decreases i,
{
    reveal(run);
    if i > 0 {
        lemma_filter_kept(ms, recvs, rs, i - 1);
        assert(ms[i - 1].pops(recvs[i - 1], rs[i - 1], ms[i]));
    }
}

proof fn lemma_stream_step(
    ms: Seq<MidiInput>,
    recvs: Seq<MidiRecv>,
    rs: Seq<Option<(u8, MidiMessage)>>,
    i: int,
)
    requires
        run(ms, recvs, rs),
        0 <= i < recvs.len(),
    ensures
        exists|added: Seq<(u8, MidiMessage)>|
            adds(ms[i], recvs[i], added) && stream(ms, rs, i + 1) == stream(ms, rs, i) + added,
        !(recvs[i] is Disconnected) ==> stream(ms, rs, i + 1) == stream(ms, rs, i) + accepted(
            ms[i].filter(),
            recvs[i],
        ),
        rs[i] is None ==> ms[i + 1].queue().len() == 0,
{
    reveal(run);
    assert(ms[i].pops(recvs[i], rs[i], ms[i + 1]));
    lemma_step_adds(ms[i], recvs[i], rs[i], ms[i + 1]);
    let added = choose|added: Seq<(u8, MidiMessage)>|
        adds(ms[i], recvs[i], added) && owed(rs[i], ms[i + 1]) == ms[i].queue() + added;
    let one = match rs[i] {
        Some(m) => seq![m],
        None => Seq::<(u8, MidiMessage)>::empty(),
    };
    let h = handed(rs, i);
    let q0 = ms[i].queue();
    let q1 = ms[i + 1].queue();
    assert(handed(rs, i + 1) == h + one);
    assert(owed(rs[i], ms[i + 1]) =~= one + q1);
    assert(one + q1 == q0 + added);
    assert((h + one) + q1 =~= h + (one + q1));
    assert(h + (q0 + added) =~= (h + q0) + added);
    assert(stream(ms, rs, i + 1) == (h + one) + q1);
    assert(stream(ms, rs, i) == h + q0);
}

proof fn lemma_stream_grows(
    ms: Seq<MidiInput>,
    recvs: Seq<MidiRecv>,
    rs: Seq<Option<(u8, MidiMessage)>>,
    i: int,
    j: int,
)
    requires
        run(ms, recvs, rs),
        0 <= i <= j <= recvs.len(),
    ensures
        stream(ms, rs, i).is_prefix_of(stream(ms, rs, j)),
    decreases j - i,
{
    if i == j {
        assert(stream(ms, rs, i).subrange(0, stream(ms, rs, i).len() as int) =~= stream(ms, rs, i));
    } else {
        lemma_stream_grows(ms, recvs, rs, i, j - 1);
        lemma_stream_step(ms, recvs, rs, j - 1);
        let added = choose|added: Seq<(u8, MidiMessage)>|
            #[trigger] adds(ms[j - 1], recvs[j - 1], added) && stream(ms, rs, j) == stream(ms, rs, j - 1)
                + added;
        let a = stream(ms, rs, i);
        let b = stream(ms, rs, j - 1);
        let c = stream(ms, rs, j);
        assert(a.len() <= b.len());
        assert(c.subrange(0, a.len() as int) =~= a) by {
            assert forall|k: int| 0 <= k < a.len() implies c[k] == a[k] by {
                assert(b.subrange(0, a.len() as int)[k] == a[k]);
                assert(c[k] == b[k]);
            }
        }
    }
}

/// The handed-out messages of the first `k` steps depend on those steps alone.
proof fn lemma_handed_prefix(
    short: Seq<Option<(u8, MidiMessage)>>,
    long: Seq<Option<(u8, MidiMessage)>>,
    k: int,
)
    requires
        0 <= k <= short.len(),
        short.len() <= long.len(),
        forall|i: int| 0 <= i < short.len() ==> short[i] == long[i],
    ensures
        handed(short, k) == handed(long, k),
    decreases k,
{
    if k > 0 {
        lemma_handed_prefix(short, long, k - 1);
    }
}

} // verus!
