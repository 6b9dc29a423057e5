use vstd::prelude::*;

use crate::index::index_from_bits;

verus! {

#[verifier::external_type_specification]
#[verifier::external_body]
#[verifier::reject_recursive_types(L)]
#[verifier::reject_recursive_types(R)]
#[verifier::reject_recursive_types(LS)]
#[verifier::reject_recursive_types(RS)]
pub struct ExBiHashMap<L, R, LS, RS>(bimap::BiHashMap<L, R, LS, RS>);

/// The pairs a bidirectional map holds, as a map from left to right values.
pub uninterp spec fn bimap_pairs(m: bimap::BiHashMap<u64, u64>) -> Map<u64, u64>;

/// The map without pairs.
pub open spec fn no_pairs() -> Map<u64, u64> {
    Map::empty()
}

/// No two left values share a right value.
pub open spec fn one_to_one(m: Map<u64, u64>) -> bool {
    forall|a: u64, b: u64|
        #![trigger m[a], m[b]]
        m.dom().contains(a) && m.dom().contains(b) && a != b ==> m[a] != m[b]
}

/// `m` without the pair whose right value is `r`.
pub open spec fn without_right(m: Map<u64, u64>, r: u64) -> Map<u64, u64> {
    m.restrict(m.dom().filter(|l: u64| m[l] != r))
}

/// `m` after `insert(l, r)`: the pairs holding `l` or `r` go, `(l, r)` comes.
pub open spec fn bimap_inserted(m: Map<u64, u64>, l: u64, r: u64) -> Map<u64, u64> {
    without_right(m.remove(l), r).insert(l, r)
}

/// Inserting a pair keeps the pairs finite and one-to-one.
pub proof fn lemma_inserted_wf(m: Map<u64, u64>, l: u64, r: u64)
    requires
        m.dom().finite(),
        one_to_one(m),
    ensures
        bimap_inserted(m, l, r).dom().finite(),
        one_to_one(bimap_inserted(m, l, r)),
        bimap_inserted(m, l, r).dom().contains(l),
        bimap_inserted(m, l, r)[l] == r,
        forall|k: u64|
            k != l ==> (#[trigger] bimap_inserted(m, l, r).dom().contains(k) <==> (m.dom().contains(k)
                && m[k] != r)),
        forall|k: u64| k != l && bimap_inserted(m, l, r).dom().contains(k) ==> #[trigger] bimap_inserted(m, l, r)[k] == m[k],
{
    let m1 = m.remove(l);
    let m2 = without_right(m1, r);
    assert(m1.dom().finite());
    assert(m2.dom() =~= m1.dom().filter(|k: u64| m1[k] != r));
    assert(m2.dom().finite());
    let n = bimap_inserted(m, l, r);
    assert forall|a: u64, b: u64|
        n.dom().contains(a) && n.dom().contains(b) && a != b implies #[trigger] n[a] != #[trigger] n[b] by {
        if a == l {
            assert(n[b] == m[b]);
            assert(m[b] != r);
        } else if b == l {
            assert(n[a] == m[a]);
            assert(m[a] != r);
        } else {
            assert(n[a] == m[a] && n[b] == m[b]);
        }
    }
}

/// The pairs of a one-to-one map after several insertions stay finite and one-to-one.
pub proof fn lemma_inserted_all_wf(pairs: Seq<(u64, u64)>, n: int)
    ensures
        inserted_all(pairs, n).dom().finite(),
        one_to_one(inserted_all(pairs, n)),
    decreases n,
{
    if n <= 0 {
        assert(inserted_all(pairs, n).dom() =~= Set::<u64>::empty());
    } else {
        lemma_inserted_all_wf(pairs, n - 1);
        lemma_inserted_wf(inserted_all(pairs, n - 1), pairs[n - 1].0, pairs[n - 1].1);
    }
}

/// `BiHashMap::new`: an empty map.
#[verifier::external_body]
fn bimap_new() -> (res: bimap::BiHashMap<u64, u64>)
    ensures
        bimap_pairs(res) == no_pairs(),
{
    bimap::BiHashMap::new()
}

/// `BiHashMap::get_by_left`: the right value paired with `l`.
#[verifier::external_body]
fn bimap_get_by_left(m: &bimap::BiHashMap<u64, u64>, l: u64) -> (res: Option<u64>)
    ensures
        res == if bimap_pairs(*m).dom().contains(l) {
            Some(bimap_pairs(*m)[l])
        } else {
            None
        },
{
    m.get_by_left(&l).copied()
}

/// `BiHashMap::get_by_right`: the left value paired with `r`.
#[verifier::external_body]
fn bimap_get_by_right(m: &bimap::BiHashMap<u64, u64>, r: u64) -> (res: Option<u64>)
    ensures
        res matches Some(l) ==> bimap_pairs(*m).dom().contains(l) && bimap_pairs(*m)[l] == r,
        res is None ==> forall|l: u64|
            bimap_pairs(*m).dom().contains(l) ==> #[trigger] bimap_pairs(*m)[l] != r,
{
    m.get_by_right(&r).copied()
}

/// `BiHashMap::remove_by_left`: drops the pair holding `l`.
#[verifier::external_body]
fn bimap_remove_by_left(m: &mut bimap::BiHashMap<u64, u64>, l: u64)
    ensures
        bimap_pairs(*final(m)) == bimap_pairs(*old(m)).remove(l),
{
    m.remove_by_left(&l);
}

/// `BiHashMap::insert`: drops the pairs holding `l` or `r` and adds `(l, r)`.
#[verifier::external_body]
fn bimap_insert(m: &mut bimap::BiHashMap<u64, u64>, l: u64, r: u64)
    ensures
        bimap_pairs(*final(m)) == bimap_inserted(bimap_pairs(*old(m)), l, r),
{
    m.insert(l, r);
}

/// `BiHashMap::iter`, each pair copied out; the order is the hash map's.
#[verifier::external_body]
fn bimap_entries(m: &bimap::BiHashMap<u64, u64>) -> (res: Vec<(u64, u64)>)
    ensures
        res@.no_duplicates(),
        res@.len() == bimap_pairs(*m).dom().len(),
        forall|i: int|
            0 <= i < res@.len() ==> bimap_pairs(*m).dom().contains(#[trigger] res@[i].0)
                && bimap_pairs(*m)[res@[i].0] == res@[i].1,
{
    m.iter().map(|(l, r)| (*l, *r)).collect()
}

/// The sources whose values a runtime can take from outside.
#[derive(Clone, Copy, Debug, PartialEq, Eq, Structural)]
pub enum ExternInput {
    TrackAudio,
    Midi,
}

impl ExternInput {
    /// The name under which the input is defined in the runtime.
    pub fn name(self) -> (res: &'static str)
        ensures
            self == ExternInput::TrackAudio ==> res@ == "TrackAudio"@,
            self == ExternInput::Midi ==> res@ == "Midi"@,
    {
        match self {
            ExternInput::TrackAudio => "TrackAudio",
            ExternInput::Midi => "Midi",
        }
    }
}

/// An output of a runtime node: the node's index bits and the port number.
#[derive(Clone, Copy, Debug, PartialEq, Eq, Structural)]
pub struct OutputPort {
    pub node: u64,
    pub port: usize,
}

/// A request to the audio runtime. Nodes and runtimes themselves travel
/// beside it; here nodes are named by the bits of their runtime index.
#[derive(Clone, Debug)]
pub enum RtRequest {
    /// Insert the node of editor id `id`, with `inputs` all unconnected.
    Insert { id: u64, inputs: Vec<Option<OutputPort>> },
    Remove(u64),
    SetInput { src: Option<OutputPort>, dst: u64, port: usize },
    SetAllInputs { dst: u64, inputs: Vec<Option<OutputPort>> },
    Play(Option<OutputPort>),
    Record(u64, usize),
    StopRecording(u64, usize),
    ReplaceRuntime,
    CloneRuntime,
    Shutdown,
}

/// The pairs after inserting the first `n` of `pairs` one by one.
pub open spec fn inserted_all(pairs: Seq<(u64, u64)>, n: int) -> Map<u64, u64>
    decreases n,
{
    if n <= 0 {
        Map::empty()
    } else {
        bimap_inserted(inserted_all(pairs, n - 1), pairs[n - 1].0, pairs[n - 1].1)
    }
}

/// The editor's side of the audio runtime: which runtime node (by index
/// bits) stands for which editor node (by id), and whether a reply must be
/// awaited before the next frame.
pub struct RuntimeRemote {
    mapping: bimap::BiHashMap<u64, u64>,
    must_wait: bool,
}

impl RuntimeRemote {
    /// The runtime index of each editor node.
    pub closed spec fn nodes(&self) -> Map<u64, u64> {
        bimap_pairs(self.mapping)
    }

    pub closed spec fn waiting(&self) -> bool {
        self.must_wait
    }

    /// The pairs are finitely many and one-to-one.
    pub open spec fn wf(&self) -> bool {
        &&& self.nodes().dom().finite()
        &&& one_to_one(self.nodes())
    }

    pub open spec fn maps(&self, id: u64) -> bool {
        self.nodes().dom().contains(id)
    }

    /// Some editor node stands at runtime index `idx`.
    pub open spec fn knows_index(&self, idx: u64) -> bool {
        exists|id: u64| self.maps(id) && #[trigger] self.nodes()[id] == idx
    }

    /// The editor node standing at runtime index `idx`.
    pub open spec fn id_of(&self, idx: u64) -> u64 {
        choose|id: u64| self.maps(id) && #[trigger] self.nodes()[id] == idx
    }

    /// In a one-to-one map the node at an index is the one mapped to it.
    pub proof fn lemma_id_of(&self, idx: u64, id: u64)
        requires
            self.wf(),
            self.maps(id),
            self.nodes()[id] == idx,
        ensures
            self.knows_index(idx),
            self.id_of(idx) == id,
    {
        let other = self.id_of(idx);
        assert(self.maps(other) && self.nodes()[other] == idx);
        if other != id {
            assert(self.nodes()[other] != self.nodes()[id]);
        }
    }

    pub fn new() -> (res: Self)
        ensures
            res.nodes() == no_pairs(),
            res.wf(),
            !res.waiting(),
    {
        RuntimeRemote { mapping: bimap_new(), must_wait: false }
    }

    /// The runtime index that stands for editor node `id`.
    pub fn id_to_index(&self, id: u64) -> (res: Option<u64>)
        ensures
            res == if self.maps(id) {
                Some(self.nodes()[id])
            } else {
                None
            },
    {
        bimap_get_by_left(&self.mapping, id)
    }

    /// The editor node that runtime index `idx` stands for.
    pub fn index_to_id(&self, idx: u64) -> (res: Option<u64>)
        ensures
            res matches Some(id) ==> self.maps(id) && self.nodes()[id] == idx,
            res is None ==> forall|id: u64| self.maps(id) ==> #[trigger] self.nodes()[id] != idx,
    {
        bimap_get_by_right(&self.mapping, idx)
    }

    /// Asks to insert a node with `inputs` unconnected inputs; the reply
    /// (see `inserted`) is awaited.
    pub fn insert(&mut self, id: u64, inputs: usize) -> (req: RtRequest)
        ensures
            req matches RtRequest::Insert { id: i, inputs: ins } && i == id && ins@ == Seq::new(
                inputs as nat,
                |k: int| None::<OutputPort>,
            ),
            final(self).nodes() == old(self).nodes(),
            final(self).waiting(),
    {
        let mut ins: Vec<Option<OutputPort>> = Vec::new();
        let mut k: usize = 0;
        while k < inputs
            invariant
                k <= inputs,
                ins@ == Seq::new(k as nat, |j: int| None::<OutputPort>),
            decreases inputs - k,
        {
            ins.push(None);
            k = k + 1;
            proof {
                assert(ins@ =~= Seq::new(k as nat, |j: int| None::<OutputPort>));
            }
        }
        self.must_wait = true;
        RtRequest::Insert { id, inputs: ins }
    }

    /// The runtime answered an insertion: `idx` now stands for `id`.
    pub fn inserted(&mut self, id: u64, idx: u64)
        requires
            old(self).wf(),
        ensures
            final(self).wf(),
            final(self).nodes() == bimap_inserted(old(self).nodes(), id, idx),
            final(self).waiting() == old(self).waiting(),
    {
        bimap_insert(&mut self.mapping, id, idx);
        proof {
            lemma_inserted_wf(old(self).nodes(), id, idx);
        }
    }

    /// Asks to remove the node of `id` and forgets it.
    pub fn remove(&mut self, id: u64) -> (req: RtRequest)
        requires
            old(self).wf(),
            old(self).maps(id),
        ensures
            final(self).wf(),
            req == RtRequest::Remove(old(self).nodes()[id]),
            final(self).nodes() == old(self).nodes().remove(id),
            final(self).waiting(),
    {
        let idx = match bimap_get_by_left(&self.mapping, id) {
            Some(idx) => idx,
            None => 0,
        };
        bimap_remove_by_left(&mut self.mapping, id);
        self.must_wait = true;
        RtRequest::Remove(idx)
    }

    /// Asks to set all inputs of the node of `dst`.
    pub fn set_inputs(&self, dst: u64, inputs: Vec<Option<OutputPort>>) -> (req: RtRequest)
        requires
            self.maps(dst),
        ensures
            req matches RtRequest::SetAllInputs { dst: d, inputs: ins } && d == self.nodes()[dst]
                && ins@ == inputs@,
    {
        let d = match bimap_get_by_left(&self.mapping, dst) {
            Some(d) => d,
            None => 0,
        };
        RtRequest::SetAllInputs { dst: d, inputs }
    }

    /// Asks to connect output `src_port` of `src` to input `dst_port` of `dst`.
    pub fn connect(&self, src: u64, src_port: usize, dst: u64, dst_port: usize) -> (req: RtRequest)
        requires
            self.maps(src),
            self.maps(dst),
        ensures
            req == (RtRequest::SetInput {
                src: Some(OutputPort { node: self.nodes()[src], port: src_port }),
                dst: self.nodes()[dst],
                port: dst_port,
            }),
    {
        let s = match bimap_get_by_left(&self.mapping, src) {
            Some(s) => s,
            None => 0,
        };
        let d = match bimap_get_by_left(&self.mapping, dst) {
            Some(d) => d,
            None => 0,
        };
        RtRequest::SetInput { src: Some(OutputPort { node: s, port: src_port }), dst: d, port: dst_port }
    }

    /// Asks to leave input `port` of `dst` unconnected.
    pub fn disconnect(&self, dst: u64, port: usize) -> (req: RtRequest)
        requires
            self.maps(dst),
        ensures
            req == (RtRequest::SetInput { src: None, dst: self.nodes()[dst], port }),
    {
        let d = match bimap_get_by_left(&self.mapping, dst) {
            Some(d) => d,
            None => 0,
        };
        RtRequest::SetInput { src: None, dst: d, port }
    }

    /// Asks to play an output, or nothing; an unknown node plays nothing.
    pub fn play(&self, id: Option<(u64, usize)>) -> (req: RtRequest)
        ensures
            req == RtRequest::Play(
                match id {
                    Some((n, port)) => if self.maps(n) {
                        Some(OutputPort { node: self.nodes()[n], port })
                    } else {
                        None
                    },
                    None => None,
                },
            ),
    {
        let out = match id {
            Some((n, port)) => match bimap_get_by_left(&self.mapping, n) {
                Some(idx) => Some(OutputPort { node: idx, port }),
                None => None,
            },
            None => None,
        };
        RtRequest::Play(out)
    }

    /// Asks to record the samples of an output.
    pub fn record(&self, id: u64, port: usize) -> (req: RtRequest)
        requires
            self.maps(id),
        ensures
            req == RtRequest::Record(self.nodes()[id], port),
    {
        let idx = match bimap_get_by_left(&self.mapping, id) {
            Some(idx) => idx,
            None => 0,
        };
        RtRequest::Record(idx, port)
    }

    /// Asks to stop recording an output.
    pub fn stop_recording(&self, id: u64, port: usize) -> (req: RtRequest)
        requires
            self.maps(id),
        ensures
            req == RtRequest::StopRecording(self.nodes()[id], port),
    {
        let idx = match bimap_get_by_left(&self.mapping, id) {
            Some(idx) => idx,
            None => 0,
        };
        RtRequest::StopRecording(idx, port)
    }

    /// Takes over the pairs saved with a runtime, in order (a later pair
    /// displaces earlier ones that share a value), and asks to replace the
    /// runtime.
    pub fn replace_runtime(&mut self, mapping: Vec<(u64, u64)>) -> (req: RtRequest)
        requires
            forall|i: int| 0 <= i < mapping@.len() ==> #[trigger] mapping@[i].1 >= 0x1_0000_0000,
        ensures
            final(self).wf(),
            req == RtRequest::ReplaceRuntime,
            final(self).nodes() == inserted_all(mapping@, mapping@.len() as int),
            final(self).waiting() == old(self).waiting(),
    {
        let mut m = bimap_new();
        let mut i: usize = 0;
        while i < mapping.len()
            invariant
                i <= mapping@.len(),
                forall|j: int| 0 <= j < mapping@.len() ==> #[trigger] mapping@[j].1 >= 0x1_0000_0000,
                bimap_pairs(m) == inserted_all(mapping@, i as int),
            decreases mapping.len() - i,
        {
            let (id, bits) = mapping[i];
            let valid = index_from_bits(bits).is_some();
            assert(valid);
            bimap_insert(&mut m, id, bits);
            i = i + 1;
        }
        self.mapping = m;
        proof {
            lemma_inserted_all_wf(mapping@, mapping@.len() as int);
        }
        RtRequest::ReplaceRuntime
    }

    /// The pairs to save with the runtime, in the map's order.
    pub fn mapping_pairs(&self) -> (res: Vec<(u64, u64)>)
        ensures
            res@.no_duplicates(),
            res@.len() == self.nodes().dom().len(),
            forall|i: int|
                0 <= i < res@.len() ==> self.maps(#[trigger] res@[i].0) && self.nodes()[res@[i].0]
                    == res@[i].1,
    {
        bimap_entries(&self.mapping)
    }

    /// Whether a reply must be awaited.
    pub fn must_wait(&self) -> (res: bool)
        ensures
            res == self.waiting(),
    {
        self.must_wait
    }

    /// The awaited reply came.
    pub fn waited(&mut self)
        ensures
            !final(self).waiting(),
            final(self).nodes() == old(self).nodes(),
    {
        self.must_wait = false;
    }

    /// Asks for a copy of the runtime, to save it; the reply is awaited.
    pub fn save_state(&mut self) -> (req: RtRequest)
        ensures
            req == RtRequest::CloneRuntime,
            final(self).waiting(),
            final(self).nodes() == old(self).nodes(),
    {
        self.must_wait = true;
        RtRequest::CloneRuntime
    }

    /// Asks the runtime to stop.
    pub fn shutdown(&self) -> (req: RtRequest)
        ensures
            req == RtRequest::Shutdown,
    {
        RtRequest::Shutdown
    }
}

/// In a one-to-one map the two lookups agree: `id` stands at `idx` exactly
/// when the node at `idx` is `id`.
pub proof fn law_lookups_agree(r: RuntimeRemote, id: u64, idx: u64)
    requires
        r.wf(),
    ensures
        (r.maps(id) && r.nodes()[id] == idx) <==> (r.knows_index(idx) && r.id_of(idx) == id),
{
    if r.maps(id) && r.nodes()[id] == idx {
        r.lemma_id_of(idx, id);
    }
}

/// After the runtime answered an insertion, each lookup finds the other side
/// of the new pair.
pub proof fn law_inserted_found(r: RuntimeRemote, id: u64, idx: u64, after: RuntimeRemote)
    requires
        r.wf(),
        after.nodes() == bimap_inserted(r.nodes(), id, idx),
    ensures
        after.maps(id) && after.nodes()[id] == idx,
        after.knows_index(idx) && after.id_of(idx) == id,
{
    lemma_inserted_wf(r.nodes(), id, idx);
    after.lemma_id_of(idx, id);
}

/// After a removal neither lookup finds the removed pair.
pub proof fn law_removed_gone(r: RuntimeRemote, id: u64, after: RuntimeRemote)
    requires
        r.wf(),
        r.maps(id),
        after.nodes() == r.nodes().remove(id),
    ensures
        !after.maps(id),
        !after.knows_index(r.nodes()[id]),
{
    let idx = r.nodes()[id];
    if after.knows_index(idx) {
        let other = choose|o: u64| after.maps(o) && #[trigger] after.nodes()[o] == idx;
        assert(r.maps(other) && r.nodes()[other] == idx);
        assert(other != id);
    }
}

} // verus!
