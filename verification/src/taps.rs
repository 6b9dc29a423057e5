use vstd::prelude::*;

use crate::remote::{OutputPort, RtRequest};

verus! {

/// The outputs the audio thread listens to: the one it plays, and those it
/// records for the scopes.
pub struct Taps {
    playing: Option<OutputPort>,
    recording: Vec<OutputPort>,
}

/// The taps after a request: `Play` sets the played output, `Record` and
/// `StopRecording` add and drop a recorded one, and `Remove` drops every tap
/// of the removed node. Other requests leave the taps.
pub open spec fn tapped_after(
    played: Option<OutputPort>,
    recorded: Set<OutputPort>,
    req: RtRequest,
) -> (Option<OutputPort>, Set<OutputPort>) {
    match req {
        RtRequest::Play(p) => (p, recorded),
        RtRequest::Record(node, port) => (played, recorded.insert(OutputPort { node, port })),
        RtRequest::StopRecording(node, port) => (played, recorded.remove(OutputPort { node, port })),
        RtRequest::Remove(node) => (
            if played matches Some(p) && p.node == node {
                None
            } else {
                played
            },
            recorded.filter(|p: OutputPort| p.node != node),
        ),
        _ => (played, recorded),
    }
}

/// Whether output `p` keeps being recorded when the outputs of `node` at
/// `port` (all of its ports when `None`) stop.
pub open spec fn kept_tap(node: u64, port: Option<usize>, p: OutputPort) -> bool {
    !(p.node == node && match port {
        Some(q) => p.port == q,
        None => true,
    })
}

impl Taps {
    pub closed spec fn played(&self) -> Option<OutputPort> {
        self.playing
    }

    pub closed spec fn recorded(&self) -> Set<OutputPort> {
        self.recording@.to_set()
    }

    /// No output is recorded twice.
    pub closed spec fn wf(&self) -> bool {
        self.recording@.no_duplicates()
    }

    /// Nothing played, nothing recorded.
    pub fn new() -> (res: Self)
        ensures
            res.wf(),
            res.played() is None,
            res.recorded() == Set::<OutputPort>::empty(),
    {
        let res = Taps { playing: None, recording: Vec::new() };
        proof {
            assert(res.recording@.to_set() =~= Set::<OutputPort>::empty());
        }
        res
    }

    /// The output played, if any.
    pub fn playing(&self) -> (res: Option<OutputPort>)
        ensures
            res == self.played(),
    {
        self.playing
    }

    /// Whether `port` is recorded.
    pub fn is_recorded(&self, port: OutputPort) -> (res: bool)
        ensures
            res == self.recorded().contains(port),
    {
        let mut i: usize = 0;
        while i < self.recording.len()
            invariant
                i <= self.recording@.len(),
                forall|j: int| 0 <= j < i ==> self.recording@[j] != port,
            decreases self.recording.len() - i,
        {
            if self.recording[i] == port {
                proof {
                    assert(self.recording@.contains(port));
                }
                return true;
            }
            i = i + 1;
        }
        false
    }

    /// The recorded outputs, each once.
    pub fn recorded_ports(&self) -> (res: Vec<OutputPort>)
        requires
            self.wf(),
        ensures
            res@.no_duplicates(),
            res@.to_set() == self.recorded(),
    {
        self.recording.clone()
    }

    /// Takes a request into account.
    pub fn apply(&mut self, req: &RtRequest)
        requires
            old(self).wf(),
        ensures
            final(self).wf(),
            (final(self).played(), final(self).recorded()) == tapped_after(
                old(self).played(),
                old(self).recorded(),
                *req,
            ),
    {
        match req {
            RtRequest::Play(p) => {
                self.playing = *p;
            },
            RtRequest::Record(node, port) => {
                let tap = OutputPort { node: *node, port: *port };
                if !self.is_recorded(tap) {
                    let ghost before = self.recording@;
                    self.recording.push(tap);
                    proof {
                        assert(self.recording@ == before.push(tap));
                        assert(self.recording@.to_set() =~= before.to_set().insert(tap)) by {
                            assert forall|q: OutputPort| self.recording@.to_set().contains(q)
                                <==> before.to_set().insert(tap).contains(q) by {
                                if q == tap {
                                    assert(self.recording@[before.len() as int] == q);
                                } else if before.contains(q) {
                                    let j = choose|j: int| 0 <= j < before.len() && before[j] == q;
                                    assert(self.recording@[j] == q);
                                }
                            }
                        }
                        assert forall|a: int, b: int|
                            0 <= a < self.recording@.len() && 0 <= b < self.recording@.len() && a
                                != b implies self.recording@[a] != self.recording@[b] by {
                            if a == before.len() {
                                assert(self.recording@[b] == before[b]);
                                assert(before.contains(before[b]));
                            } else if b == before.len() {
                                assert(self.recording@[a] == before[a]);
                                assert(before.contains(before[a]));
                            }
                        }
                    }
                } else {
                    proof {
                        assert(self.recording@.to_set().insert(tap) =~= self.recording@.to_set());
                    }
                }
            },
            RtRequest::StopRecording(node, port) => {
                let tap = OutputPort { node: *node, port: *port };
                let ghost before = self.recording@;
                self.drop_taps(*node, Some(*port));
                proof {
                    assert(self.recording@.to_set() =~= before.to_set().remove(tap));
                }
            },
            RtRequest::Remove(node) => {
                let n = *node;
                if let Some(p) = self.playing {
                    if p.node == n {
                        self.playing = None;
                    }
                }
                let ghost before = self.recording@;
                self.drop_taps(n, None);
                proof {
                    assert(self.recording@.to_set() =~= before.to_set().filter(
                        |p: OutputPort| p.node != n,
                    ));
                }
            },
            _ => {},
        }
    }

    /// Stops recording the outputs of `node`: the one of port `port`, or
    /// all of them when `port` is `None`. The others stay in their order.
    fn drop_taps(&mut self, node: u64, port: Option<usize>)
        requires
            old(self).wf(),
        ensures
            final(self).wf(),
            final(self).played() == old(self).played(),
            final(self).recorded() == old(self).recorded().filter(|p: OutputPort| kept_tap(node, port, p)),
    {
        let ghost pred = |p: OutputPort| kept_tap(node, port, p);
        let ghost before = self.recording@;
        let mut kept: Vec<OutputPort> = Vec::new();
        let mut i: usize = 0;
        while i < self.recording.len()
            invariant
                self.recording@ == before,
                before.no_duplicates(),
                i <= before.len(),
                pred == (|p: OutputPort| kept_tap(node, port, p)),
                kept@.no_duplicates(),
                forall|q: OutputPort|
                    #[trigger] kept@.contains(q) <==> (before.take(i as int).contains(q) && pred(q)),
            decreases self.recording.len() - i,
        {
            let p = self.recording[i];
            let ghost prev = kept@;
            let ok = !(p.node == node && match port {
                Some(q) => p.port == q,
                None => true,
            });
            if ok {
                kept.push(p);
            }
            proof {
                let t0 = before.take(i as int);
                let t1 = before.take(i + 1);
                assert(t1 == t0.push(p));
                assert forall|q: OutputPort|
                    #[trigger] kept@.contains(q) <==> (t1.contains(q) && pred(q)) by {
                    assert(t1[i as int] == p);
                    assert(pred(q) == kept_tap(node, port, q));
                    assert(pred(p) == ok);
                    if kept@.contains(q) && !prev.contains(q) {
                        let j = choose|j: int| 0 <= j < kept@.len() && kept@[j] == q;
                        assert(j == prev.len());
                    }
                    if prev.contains(q) {
                        let j = choose|j: int| 0 <= j < prev.len() && prev[j] == q;
                        assert(kept@[j] == q);
                    }
                    if q == p && ok {
                        assert(kept@[prev.len() as int] == q);
                    }
                    if t1.contains(q) && q != p {
                        let j = choose|j: int| 0 <= j < t1.len() && #[trigger] t1[j] == q;
                        assert(t0[j] == q);
                    }
                    if t0.contains(q) {
                        let j = choose|j: int| 0 <= j < t0.len() && #[trigger] t0[j] == q;
                        assert(t1[j] == q);
                    }
                }
                if ok {
                    assert(!prev.contains(p)) by {
                        if prev.contains(p) {
                            let j = choose|j: int| 0 <= j < t0.len() && #[trigger] t0[j] == p;
                            assert(before[j] == before[i as int]);
                        }
                    }
                    assert forall|a: int, b: int|
                        0 <= a < kept@.len() && 0 <= b < kept@.len() && a != b implies kept@[a]
                        != kept@[b] by {
                        if a == prev.len() {
                            assert(prev.contains(kept@[b]));
                        } else if b == prev.len() {
                            assert(prev.contains(kept@[a]));
                        }
                    }
                }
            }
            i = i + 1;
        }
        proof {
            assert(before.take(before.len() as int) =~= before);
            assert(kept@.to_set() =~= before.to_set().filter(pred));
        }
        self.recording = kept;
    }
}

/// Recording an output that was not recorded and then stopping it leaves
/// the taps as they were.
pub proof fn law_record_then_stop(played: Option<OutputPort>, recorded: Set<OutputPort>, node: u64, port: usize)
    requires
        !recorded.contains(OutputPort { node, port }),
    ensures
        tapped_after(
            tapped_after(played, recorded, RtRequest::Record(node, port)).0,
            tapped_after(played, recorded, RtRequest::Record(node, port)).1,
            RtRequest::StopRecording(node, port),
        ) == (played, recorded),
{
    assert(recorded.insert(OutputPort { node, port }).remove(OutputPort { node, port }) =~= recorded);
}

/// After a node is removed, no output of it is played or recorded.
pub proof fn law_removed_node_untapped(played: Option<OutputPort>, recorded: Set<OutputPort>, node: u64, port: usize)
    ensures
        !(tapped_after(played, recorded, RtRequest::Remove(node)).0 == Some(OutputPort { node, port })),
        !tapped_after(played, recorded, RtRequest::Remove(node)).1.contains(OutputPort { node, port }),
{
}

} // verus!
