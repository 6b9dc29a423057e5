use vstd::prelude::*;

use crate::kinds::UpdateResult;
use crate::remote::{inserted_all, OutputPort, RtRequest, RuntimeRemote};

verus! {

/// What the graph editor reported in a frame, with nodes named by their
/// editor ids and ports by their position among the node's ports.
#[derive(Clone, Copy, Debug, PartialEq, Eq, Structural)]
pub enum GraphResponse {
    /// A node was placed; its runtime node has `inputs` inputs.
    CreatedNode { id: u64, inputs: usize },
    DeleteNode { id: u64 },
    Disconnect { node: u64, port: usize },
    Connect { src: u64, src_port: usize, dst: u64, dst_port: usize },
    SetRtPlayback { node: u64, port: usize },
    ClearRtPlayback,
    StartRecording { node: u64, port: usize },
    StopRecording { node: u64, port: usize },
    /// The kind of an input changed.
    UpdateInputType,
}

/// The runtime side of a graph editor: the remote of its audio runtime and
/// the output that plays in real time.
pub struct GraphEditor {
    pub remote: RuntimeRemote,
    pub rt_playback: Option<(u64, usize)>,
}

impl GraphEditor {
    pub fn new(remote: RuntimeRemote) -> (res: GraphEditor)
        ensures
            res.remote == remote,
            res.rt_playback is None,
    {
        GraphEditor { remote, rt_playback: None }
    }

    /// The responses whose nodes the runtime knows, as handling them needs.
    pub open spec fn accepts(&self, resp: GraphResponse) -> bool {
        match resp {
            GraphResponse::DeleteNode { id } => self.remote.maps(id),
            GraphResponse::Disconnect { node, .. } => self.remote.maps(node),
            GraphResponse::Connect { src, dst, .. } => self.remote.maps(src) && self.remote.maps(dst),
            GraphResponse::StartRecording { node, .. } => self.remote.maps(node),
            GraphResponse::StopRecording { node, .. } => self.remote.maps(node),
            _ => true,
        }
    }

    /// Whether a response changes what the runtime computes.
    pub open spec fn changes_topology(resp: GraphResponse) -> bool {
        !(resp is StartRecording || resp is StopRecording)
    }

    /// Handles one response of the editor: the request it sends to the
    /// runtime, and whether the topology changed.
    pub fn respond(&mut self, resp: GraphResponse) -> (res: (Option<RtRequest>, UpdateResult))
        requires
            old(self).remote.wf(),
            old(self).accepts(resp),
        ensures
            final(self).remote.wf(),
            res.1 == if Self::changes_topology(resp) {
                UpdateResult::TopologyChanged
            } else {
                UpdateResult::Unchanged
            },
            match resp {
                GraphResponse::CreatedNode { id, inputs } => {
                    &&& res.1 == UpdateResult::TopologyChanged
                    &&& res.0 matches Some(RtRequest::Insert { id: i, inputs: ins }) && i == id
                        && ins@ == Seq::new(inputs as nat, |k: int| None::<OutputPort>)
                    &&& final(self).remote.nodes() == old(self).remote.nodes()
                    &&& final(self).remote.waiting()
                    &&& final(self).rt_playback == old(self).rt_playback
                },
                GraphResponse::DeleteNode { id } => {
                    &&& res.1 == UpdateResult::TopologyChanged
                    &&& res.0 == Some(RtRequest::Remove(old(self).remote.nodes()[id]))
                    &&& final(self).remote.nodes() == old(self).remote.nodes().remove(id)
                    &&& final(self).remote.waiting()
                    &&& final(self).rt_playback == old(self).rt_playback
                },
                GraphResponse::Disconnect { node, port } => {
                    &&& res.1 == UpdateResult::TopologyChanged
                    &&& res.0 == Some(
                        RtRequest::SetInput { src: None, dst: old(self).remote.nodes()[node], port },
                    )
                    &&& final(self).remote == old(self).remote
                    &&& final(self).rt_playback == old(self).rt_playback
                },
                GraphResponse::Connect { src, src_port, dst, dst_port } => {
                    &&& res.1 == UpdateResult::TopologyChanged
                    &&& res.0 == Some(
                        RtRequest::SetInput {
                            src: Some(OutputPort { node: old(self).remote.nodes()[src], port: src_port }),
                            dst: old(self).remote.nodes()[dst],
                            port: dst_port,
                        },
                    )
                    &&& final(self).remote == old(self).remote
                    &&& final(self).rt_playback == old(self).rt_playback
                },
                GraphResponse::SetRtPlayback { node, port } => {
                    &&& res.1 == UpdateResult::TopologyChanged
                    &&& res.0 == Some(
                        RtRequest::Play(
                            if old(self).remote.maps(node) {
                                Some(OutputPort { node: old(self).remote.nodes()[node], port })
                            } else {
                                None
                            },
                        ),
                    )
                    &&& final(self).remote == old(self).remote
                    &&& final(self).rt_playback == Some((node, port))
                },
                GraphResponse::ClearRtPlayback => {
                    &&& res.1 == UpdateResult::TopologyChanged
                    &&& res.0 == Some(RtRequest::Play(None))
                    &&& final(self).remote == old(self).remote
                    &&& final(self).rt_playback is None
                },
                GraphResponse::StartRecording { node, port } => {
                    &&& res.1 == UpdateResult::Unchanged
                    &&& res.0 == Some(RtRequest::Record(old(self).remote.nodes()[node], port))
                    &&& final(self).remote == old(self).remote
                    &&& final(self).rt_playback == old(self).rt_playback
                },
                GraphResponse::StopRecording { node, port } => {
                    &&& res.1 == UpdateResult::Unchanged
                    &&& res.0 == Some(RtRequest::StopRecording(old(self).remote.nodes()[node], port))
                    &&& final(self).remote == old(self).remote
                    &&& final(self).rt_playback == old(self).rt_playback
                },
                GraphResponse::UpdateInputType => {
                    &&& res.1 == UpdateResult::TopologyChanged
                    &&& res.0 is None
                    &&& final(self).remote == old(self).remote
                    &&& final(self).rt_playback == old(self).rt_playback
                },
            },
    {
        match resp {
            GraphResponse::CreatedNode { id, inputs } => {
                let req = self.remote.insert(id, inputs);
                (Some(req), UpdateResult::TopologyChanged)
            },
            GraphResponse::DeleteNode { id } => {
                let req = self.remote.remove(id);
                (Some(req), UpdateResult::TopologyChanged)
            },
            GraphResponse::Disconnect { node, port } => {
                let req = self.remote.disconnect(node, port);
                (Some(req), UpdateResult::TopologyChanged)
            },
            GraphResponse::Connect { src, src_port, dst, dst_port } => {
                let req = self.remote.connect(src, src_port, dst, dst_port);
                (Some(req), UpdateResult::TopologyChanged)
            },
            GraphResponse::SetRtPlayback { node, port } => {
                self.rt_playback = Some((node, port));
                let req = self.remote.play(Some((node, port)));
                (Some(req), UpdateResult::TopologyChanged)
            },
            GraphResponse::ClearRtPlayback => {
                self.rt_playback = None;
                let req = self.remote.play(None);
                (Some(req), UpdateResult::TopologyChanged)
            },
            GraphResponse::StartRecording { node, port } => {
                let req = self.remote.record(node, port);
                (Some(req), UpdateResult::Unchanged)
            },
            GraphResponse::StopRecording { node, port } => {
                let req = self.remote.stop_recording(node, port);
                (Some(req), UpdateResult::Unchanged)
            },
            GraphResponse::UpdateInputType => (None, UpdateResult::TopologyChanged),
        }
    }

    /// The result of a frame of the editor: the topology changed exactly when
    /// one of the frame's responses changes it (all but starting and
    /// stopping a recording do) or one of the runtime indices whose nodes
    /// asked for new inputs belongs to a node the editor knows.
    pub fn frame_result(&self, responses: &Vec<GraphResponse>, recalc: &Vec<u64>) -> (res: UpdateResult)
        ensures
            (res == UpdateResult::TopologyChanged) <==> ((exists|i: int|
                0 <= i < responses@.len() && Self::changes_topology(#[trigger] responses@[i])) || (exists|j: int|
                0 <= j < recalc@.len() && self.remote.knows_index(#[trigger] recalc@[j]))),
    {
        let mut i: usize = 0;
        while i < responses.len()
            invariant
                i <= responses@.len(),
                forall|k: int| 0 <= k < i ==> !Self::changes_topology(#[trigger] responses@[k]),
            decreases responses.len() - i,
        {
            match responses[i] {
                GraphResponse::StartRecording { .. } => {},
                GraphResponse::StopRecording { .. } => {},
                _ => {
                    assert(Self::changes_topology(responses@[i as int]));
                    return UpdateResult::TopologyChanged;
                },
            }
            i = i + 1;
        }
        let mut j: usize = 0;
        while j < recalc.len()
            invariant
                j <= recalc@.len(),
                forall|k: int| 0 <= k < j ==> !self.remote.knows_index(#[trigger] recalc@[k]),
            decreases recalc.len() - j,
        {
            match self.remote.index_to_id(recalc[j]) {
                Some(id) => {
                    assert(self.remote.knows_index(recalc@[j as int]));
                    return UpdateResult::TopologyChanged;
                },
                None => {},
            }
            j = j + 1;
        }
        UpdateResult::Unchanged
    }

    /// The background part of a frame, given the runtime indices of the
    /// nodes that asked for their inputs to be rebuilt (one entry per
    /// request): the editor ids of those the editor knows, in order, and
    /// whether the topology changed (it did when any was known).
    pub fn update_background(&mut self, recalc: Vec<u64>) -> (res: (UpdateResult, Vec<u64>))
        requires
            old(self).remote.wf(),
        ensures
            final(self).remote == old(self).remote,
            final(self).rt_playback == old(self).rt_playback,
            res.1@ == recalc@.filter(|idx: u64| old(self).remote.knows_index(idx)).map_values(
                |idx: u64| old(self).remote.id_of(idx),
            ),
            res.0 == if res.1@.len() > 0 {
                UpdateResult::TopologyChanged
            } else {
                UpdateResult::Unchanged
            },
    {
        let mut ids: Vec<u64> = Vec::new();
        let mut i: usize = 0;
        let ghost known = |idx: u64| old(self).remote.knows_index(idx);
        let ghost to_id = |idx: u64| old(self).remote.id_of(idx);
        while i < recalc.len()
            invariant
                self.remote == old(self).remote,
                self.rt_playback == old(self).rt_playback,
                known == (|idx: u64| old(self).remote.knows_index(idx)),
                to_id == (|idx: u64| old(self).remote.id_of(idx)),
                self.remote.wf(),
                i <= recalc@.len(),
                ids@ == recalc@.take(i as int).filter(known).map_values(to_id),
            decreases recalc.len() - i,
        {
            let idx = recalc[i];
            proof {
                assert(recalc@.take(i + 1).drop_last() =~= recalc@.take(i as int));
                assert(recalc@.take(i + 1).last() == idx);
            }
            match self.remote.index_to_id(idx) {
                Some(id) => {
                    proof {
                        self.remote.lemma_id_of(idx, id);
                    }
                    ids.push(id);
                    proof {
                        reveal_with_fuel(Seq::filter, 1);
                        assert(known(idx));
                        assert(recalc@.take(i + 1).filter(known) == recalc@.take(i as int).filter(
                            known,
                        ).push(idx));
                        assert(ids@ =~= recalc@.take(i + 1).filter(known).map_values(to_id));
                    }
                },
                None => {
                    proof {
                        reveal_with_fuel(Seq::filter, 1);
                        assert(!known(idx));
                        assert(recalc@.take(i + 1).filter(known) == recalc@.take(i as int).filter(
                            known,
                        ));
                    }
                },
            }
            i = i + 1;
        }
        proof {
            assert(recalc@.take(recalc@.len() as int) =~= recalc@);
        }
        let changed = if ids.len() > 0 {
            UpdateResult::TopologyChanged
        } else {
            UpdateResult::Unchanged
        };
        (changed, ids)
    }

    /// Takes over a saved editor: the saved node pairs replace the runtime's,
    /// every output with an open scope is recorded again, and the saved
    /// playback output plays.
    pub fn replace(
        &mut self,
        mapping: Vec<(u64, u64)>,
        recorded: Vec<(u64, usize)>,
        rt_playback: Option<(u64, usize)>,
    ) -> (reqs: Vec<RtRequest>)
        requires
            forall|i: int| 0 <= i < mapping@.len() ==> #[trigger] mapping@[i].1 >= 0x1_0000_0000,
            forall|i: int|
                0 <= i < recorded@.len() ==> inserted_all(mapping@, mapping@.len() as int).dom().contains(
                    #[trigger] recorded@[i].0,
                ),
        ensures
            final(self).remote.wf(),
            final(self).remote.nodes() == inserted_all(mapping@, mapping@.len() as int),
            final(self).rt_playback == rt_playback,
            reqs@.len() == recorded@.len() + 2,
            reqs@[0] == RtRequest::ReplaceRuntime,
            forall|i: int|
                0 <= i < recorded@.len() ==> #[trigger] reqs@[i + 1] == RtRequest::Record(
                    final(self).remote.nodes()[recorded@[i].0],
                    recorded@[i].1,
                ),
            reqs@[recorded@.len() as int + 1] == RtRequest::Play(
                match rt_playback {
                    Some((n, port)) => if final(self).remote.maps(n) {
                        Some(OutputPort { node: final(self).remote.nodes()[n], port })
                    } else {
                        None
                    },
                    None => None,
                },
            ),
    {
        let mut reqs: Vec<RtRequest> = Vec::new();
        reqs.push(self.remote.replace_runtime(mapping));
        let mut i: usize = 0;
        while i < recorded.len()
            invariant
                self.remote.wf(),
                self.remote.nodes() == inserted_all(mapping@, mapping@.len() as int),
                forall|j: int|
                    0 <= j < recorded@.len() ==> inserted_all(mapping@, mapping@.len() as int).dom().contains(
                        #[trigger] recorded@[j].0,
                    ),
                i <= recorded@.len(),
                reqs@.len() == i + 1,
                reqs@[0] == RtRequest::ReplaceRuntime,
                forall|j: int|
                    0 <= j < i ==> #[trigger] reqs@[j + 1] == RtRequest::Record(
                        self.remote.nodes()[recorded@[j].0],
                        recorded@[j].1,
                    ),
            decreases recorded.len() - i,
        {
            let (node, port) = recorded[i];
            let req = self.remote.record(node, port);
            reqs.push(req);
            i = i + 1;
        }
        let play = self.remote.play(rt_playback);
        reqs.push(play);
        self.rt_playback = rt_playback;
        reqs
    }

    /// The runtime side of a node whose inputs were rebuilt: `sources` are
    /// the connections of its inputs in order (the editor node and the
    /// position of its output, or nothing). A source the runtime knows
    /// becomes its runtime output; the others stay unconnected.
    pub fn rewire_inputs(&self, node: u64, sources: &Vec<Option<(u64, usize)>>) -> (req: RtRequest)
        requires
            self.remote.maps(node),
        ensures
            req matches RtRequest::SetAllInputs { dst, inputs } && dst == self.remote.nodes()[node]
                && inputs@.len() == sources@.len() && forall|i: int|
                0 <= i < sources@.len() ==> #[trigger] inputs@[i] == match sources@[i] {
                    Some((n, port)) => if self.remote.maps(n) {
                        Some(OutputPort { node: self.remote.nodes()[n], port })
                    } else {
                        None
                    },
                    None => None,
                },
    {
        let mut inputs: Vec<Option<OutputPort>> = Vec::new();
        let mut i: usize = 0;
        while i < sources.len()
            invariant
                i <= sources@.len(),
                inputs@.len() == i,
                forall|j: int|
                    0 <= j < i ==> #[trigger] inputs@[j] == match sources@[j] {
                        Some((n, port)) => if self.remote.maps(n) {
                            Some(OutputPort { node: self.remote.nodes()[n], port })
                        } else {
                            None
                        },
                        None => None,
                    },
            decreases sources.len() - i,
        {
            let src = match sources[i] {
                Some((n, port)) => match self.remote.id_to_index(n) {
                    Some(idx) => Some(OutputPort { node: idx, port }),
                    None => None,
                },
                None => None,
            };
            inputs.push(src);
            i = i + 1;
        }
        self.remote.set_inputs(node, inputs)
    }

    /// Asks the runtime to stop.
    pub fn shutdown(&mut self) -> (req: RtRequest)
        ensures
            req == RtRequest::Shutdown,
            final(self).remote == old(self).remote,
            final(self).rt_playback == old(self).rt_playback,
    {
        self.remote.shutdown()
    }
}

/// The names a list of strings holds.
pub open spec fn names(v: Seq<String>) -> Seq<Seq<char>> {
    v.map_values(|s: String| s@)
}

/// Whether `v` holds the name `s`.
fn contains_name(v: &Vec<String>, s: &String) -> (res: bool)
    ensures
        res == names(v@).contains(s@),
{
    let mut i: usize = 0;
    while i < v.len()
        invariant
            i <= v@.len(),
            forall|j: int| 0 <= j < i ==> v@[j]@ != s@,
        decreases v.len() - i,
    {
        if v[i] == *s {
            proof {
                assert(names(v@)[i as int] == s@);
            }
            return true;
        }
        i = i + 1;
    }
    proof {
        if names(v@).contains(s@) {
            let j = choose|j: int| 0 <= j < names(v@).len() && names(v@)[j] == s@;
            assert(v@[j]@ == s@);
        }
    }
    false
}

/// The positions in `of` of the names that `other` does not hold, ascending.
pub open spec fn missing_from(of: Seq<String>, other: Seq<String>, ps: Seq<usize>) -> bool {
    &&& forall|k: int| 0 <= k < ps.len() ==> #[trigger] ps[k] < of.len()
    &&& forall|a: int, b: int| 0 <= a < b < ps.len() ==> ps[a] < ps[b]
    &&& forall|i: int|
        0 <= i < of.len() ==> (ps.contains(i as usize) <==> !names(other).contains(#[trigger] of[i]@))
}

/// The positions of `of` whose names `other` lacks.
fn positions_missing(of: &Vec<String>, other: &Vec<String>) -> (res: Vec<usize>)
    ensures
        missing_from(of@, other@, res@),
{
    let mut res: Vec<usize> = Vec::new();
    let mut i: usize = 0;
    while i < of.len()
        invariant
            i <= of@.len(),
            forall|k: int| 0 <= k < res@.len() ==> #[trigger] res@[k] < i,
            forall|a: int, b: int| 0 <= a < b < res@.len() ==> res@[a] < res@[b],
            forall|j: int|
                0 <= j < i ==> (res@.contains(j as usize) <==> !names(other@).contains(#[trigger] of@[j]@)),
        decreases of.len() - i,
    {
        let ghost before = res@;
        if !contains_name(other, &of[i]) {
            res.push(i);
        }
        proof {
            assert forall|j: int| 0 <= j < i + 1 implies (res@.contains(j as usize) <==> !names(
                other@,
            ).contains(#[trigger] of@[j]@)) by {
                if j < i {
                    if res@.contains(j as usize) {
                        let k = choose|k: int| 0 <= k < res@.len() && res@[k] == j as usize;
                        if k < before.len() {
                            assert(before.contains(j as usize));
                        }
                    }
                    if before.contains(j as usize) {
                        let k = choose|k: int| 0 <= k < before.len() && before[k] == j as usize;
                        assert(res@[k] == j as usize);
                    }
                } else {
                    if res@.contains(j as usize) && res@.len() == before.len() {
                        let k = choose|k: int| 0 <= k < res@.len() && res@[k] == j as usize;
                        assert(before[k] < i);
                    }
                    if res@.len() > before.len() {
                        assert(res@[before.len() as int] == i);
                    }
                }
            }
        }
        i = i + 1;
    }
    res
}

/// `i` is the first position of `of` that holds the name `name`.
pub open spec fn first_at(of: Seq<String>, name: Seq<char>, i: int) -> bool {
    &&& 0 <= i < of.len()
    &&& of[i]@ == name
    &&& forall|k: int| 0 <= k < i ==> (#[trigger] of[k])@ != name
}

/// The first position of `v` that holds the name `s`.
fn position_of(v: &Vec<String>, s: &String) -> (res: Option<usize>)
    ensures
        res matches Some(i) ==> first_at(v@, s@, i as int),
        res is None <==> !names(v@).contains(s@),
{
    let mut i: usize = 0;
    while i < v.len()
        invariant
            i <= v@.len(),
            forall|j: int| 0 <= j < i ==> (#[trigger] v@[j])@ != s@,
        decreases v.len() - i,
    {
        if v[i] == *s {
            proof {
                assert(names(v@)[i as int] == s@);
            }
            return Some(i);
        }
        i = i + 1;
    }
    proof {
        if names(v@).contains(s@) {
            let j = choose|j: int| 0 <= j < names(v@).len() && names(v@)[j] == s@;
            assert(v@[j]@ == s@);
        }
    }
    None
}

/// How the inputs of a graph node change when its runtime node lists new
/// ones: the current inputs to remove and the listed ones to add, each by
/// position, ascending; and, for each listed input in its order, the
/// current input it keeps (the first of its name) or none when it is added.
/// Afterwards the node's inputs are the listed ones in the listed order.
pub struct InputPlan {
    pub remove: Vec<usize>,
    pub add: Vec<usize>,
    pub from: Vec<Option<usize>>,
}

/// Plans the rebuild of a node's inputs from the names it has to the names
/// its runtime node lists.
pub fn plan_inputs(current: &Vec<String>, wanted: &Vec<String>) -> (res: InputPlan)
    ensures
        missing_from(current@, wanted@, res.remove@),
        missing_from(wanted@, current@, res.add@),
        res.from@.len() == wanted@.len(),
        forall|j: int|
            0 <= j < wanted@.len() ==> ((#[trigger] res.from@[j]) matches Some(i) ==> first_at(
                current@,
                wanted@[j]@,
                i as int,
            )),
        forall|j: int|
            0 <= j < wanted@.len() ==> ((#[trigger] res.from@[j]) is None <==> !names(current@).contains(
                wanted@[j]@,
            )),
{
    let remove = positions_missing(current, wanted);
    let add = positions_missing(wanted, current);
    let mut from: Vec<Option<usize>> = Vec::new();
    let mut j: usize = 0;
    while j < wanted.len()
        invariant
            j <= wanted@.len(),
            from@.len() == j,
            forall|k: int|
                0 <= k < j ==> ((#[trigger] from@[k]) matches Some(i) ==> first_at(
                    current@,
                    wanted@[k]@,
                    i as int,
                )),
            forall|k: int|
                0 <= k < j ==> ((#[trigger] from@[k]) is None <==> !names(current@).contains(
                    wanted@[k]@,
                )),
        decreases wanted.len() - j,
    {
        let p = position_of(current, &wanted[j]);
        from.push(p);
        j = j + 1;
    }
    InputPlan { remove, add, from }
}

/// Every response of the editor but starting and stopping a recording
/// changes what the runtime computes: creating or deleting a node,
/// connecting or disconnecting an input, choosing or clearing the played
/// output, and changing an input's kind.
pub proof fn law_responses_that_change_topology(
    id: u64,
    inputs: usize,
    node: u64,
    port: usize,
    src: u64,
    src_port: usize,
)
    ensures
        GraphEditor::changes_topology(GraphResponse::CreatedNode { id, inputs }),
        GraphEditor::changes_topology(GraphResponse::DeleteNode { id }),
        GraphEditor::changes_topology(GraphResponse::Disconnect { node, port }),
        GraphEditor::changes_topology(GraphResponse::Connect { src, src_port, dst: node, dst_port: port }),
        GraphEditor::changes_topology(GraphResponse::SetRtPlayback { node, port }),
        GraphEditor::changes_topology(GraphResponse::ClearRtPlayback),
        GraphEditor::changes_topology(GraphResponse::UpdateInputType),
        !GraphEditor::changes_topology(GraphResponse::StartRecording { node, port }),
        !GraphEditor::changes_topology(GraphResponse::StopRecording { node, port }),
{
}

} // verus!
