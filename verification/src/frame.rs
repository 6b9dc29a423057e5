use vstd::prelude::*;

use crate::kinds::UpdateResult;
use crate::tree::{contains_index, without, EditorIndex, EditorTree, ManagedEditor};

verus! {

/// `cs` without the indices whose bits are in `gone`.
pub open spec fn kept(cs: Seq<EditorIndex>, gone: Set<u64>) -> Seq<EditorIndex> {
    cs.filter(|c: EditorIndex| !gone.contains(c.0))
}

/// `after` is `before` without the nodes whose bits are in `gone`: the
/// other nodes keep their editors and parents, and lose the children that
/// are gone.
pub open spec fn pruned(before: EditorTree, after: EditorTree, gone: Set<u64>) -> bool {
    &&& after.root_index() == before.root_index()
    &&& gone.subset_of(before.nodes().dom())
    &&& after.nodes().dom() == before.nodes().dom().difference(gone)
    &&& forall|n: u64|
        #[trigger] after.nodes().dom().contains(n) ==> {
            &&& after.nodes()[n].editor_of() == before.nodes()[n].editor_of()
            &&& after.nodes()[n].parent_of() == before.nodes()[n].parent_of()
            &&& after.nodes()[n].children_of() == kept(before.nodes()[n].children_of(), gone)
        }
}

/// The bits of the indices of `t` from position `from` on.
pub open spec fn listed(t: Seq<EditorIndex>, from: int) -> Set<u64> {
    Set::new(|b: u64| exists|k: int| from <= k < t.len() && (#[trigger] t[k]).0 == b)
}

/// `t` lists the subtree under its first node in `tree`, as
/// `traverse_from` gives it.
pub open spec fn subtree_listing(tree: EditorTree, t: Seq<EditorIndex>) -> bool {
    &&& t.len() > 0
    &&& t.no_duplicates()
    &&& t[0] != tree.root_index()
    &&& forall|j: int| 0 <= j < t.len() ==> tree.contains(#[trigger] t[j])
    &&& forall|j: int| 0 < j < t.len() ==> tree.parent_in(#[trigger] t[j], t.take(j))
    &&& forall|j: int, c: int|
        0 <= j < t.len() && 0 <= c < tree.node(t[j]).children_of().len() ==> t.contains(
            #[trigger] tree.node(#[trigger] t[j]).children_of()[c],
        )
}

proof fn lemma_kept_none(cs: Seq<EditorIndex>)
    ensures
        kept(cs, Set::empty()) == cs,
    decreases cs.len(),
{
    reveal_with_fuel(Seq::filter, 1);
    if cs.len() > 0 {
        lemma_kept_none(cs.drop_last());
        assert(cs.drop_last().push(cs.last()) =~= cs);
    }
}

proof fn lemma_kept_step(cs: Seq<EditorIndex>, gone: Set<u64>, x: EditorIndex)
    ensures
        without(kept(cs, gone), x) == kept(cs, gone.insert(x.0)),
    decreases cs.len(),
{
    reveal_with_fuel(Seq::filter, 1);
    if cs.len() > 0 {
        lemma_kept_step(cs.drop_last(), gone, x);
        let l = cs.last();
        if !gone.contains(l.0) {
            assert(kept(cs, gone) == kept(cs.drop_last(), gone).push(l));
            assert(kept(cs, gone).drop_last() =~= kept(cs.drop_last(), gone));
        } else {
            assert(kept(cs, gone) == kept(cs.drop_last(), gone));
        }
    }
}

proof fn lemma_kept_absent(cs: Seq<EditorIndex>, gone: Set<u64>, x: EditorIndex)
    requires
        !cs.contains(x),
    ensures
        kept(cs, gone.insert(x.0)) == kept(cs, gone),
    decreases cs.len(),
{
    reveal_with_fuel(Seq::filter, 1);
    if cs.len() > 0 {
        assert(!cs.drop_last().contains(x)) by {
            if cs.drop_last().contains(x) {
                let k = choose|k: int| 0 <= k < cs.drop_last().len() && cs.drop_last()[k] == x;
                assert(cs[k] == x);
            }
        }
        lemma_kept_absent(cs.drop_last(), gone, x);
        assert(cs.last() != x);
        assert(cs.last().0 != x.0);
    }
}

proof fn lemma_kept_all_gone(cs: Seq<EditorIndex>, gone: Set<u64>)
    requires
        forall|k: int| 0 <= k < cs.len() ==> gone.contains((#[trigger] cs[k]).0),
    ensures
        kept(cs, gone).len() == 0,
    decreases cs.len(),
{
    reveal_with_fuel(Seq::filter, 1);
    if cs.len() > 0 {
        assert forall|k: int| 0 <= k < cs.drop_last().len() implies gone.contains(
            (#[trigger] cs.drop_last()[k]).0,
        ) by {
            assert(cs.drop_last()[k] == cs[k]);
        }
        lemma_kept_all_gone(cs.drop_last(), gone);
        assert(gone.contains(cs[cs.len() - 1].0));
    }
}

proof fn lemma_kept_has(cs: Seq<EditorIndex>, gone: Set<u64>, c: EditorIndex)
    requires
        cs.contains(c),
        !gone.contains(c.0),
    ensures
        kept(cs, gone).contains(c),
    decreases cs.len(),
{
    reveal_with_fuel(Seq::filter, 1);
    if cs.last() == c {
        assert(kept(cs, gone) == kept(cs.drop_last(), gone).push(c));
        assert(kept(cs, gone)[kept(cs, gone).len() - 1] == c);
    } else {
        let k = choose|k: int| 0 <= k < cs.len() && cs[k] == c;
        assert(cs.drop_last()[k] == c);
        lemma_kept_has(cs.drop_last(), gone, c);
        let f = kept(cs.drop_last(), gone);
        let i = choose|i: int| 0 <= i < f.len() && f[i] == c;
        if !gone.contains(cs.last().0) {
            assert(kept(cs, gone) == f.push(cs.last()));
            assert(kept(cs, gone)[i] == c);
        } else {
            assert(kept(cs, gone) == f);
        }
    }
}

/// Every node of a subtree listing lies at least as deep as its first one.
proof fn lemma_listing_depths(tree: EditorTree, t: Seq<EditorIndex>, j: int)
    requires
        tree.wf(),
        subtree_listing(tree, t),
        0 <= j < t.len(),
    ensures
        tree.depths()[t[j].0] >= tree.depths()[t[0].0],
    decreases j,
{
    if j > 0 {
        assert(tree.parent_in(t[j], t.take(j)));
        let p = tree.node(t[j]).parent_of()->0;
        let i = choose|i: int| 0 <= i < t.take(j).len() && t.take(j)[i] == p;
        assert(t[i] == p);
        lemma_listing_depths(tree, t, i);
        assert(tree.contains(t[j]));
        assert(t[j] != tree.root_index());
        assert(tree.depths().dom().contains(t[j].0));
    }
}

/// Node `n` was in `before` and is no longer in `after`.
pub open spec fn removed(before: EditorTree, after: EditorTree, n: u64) -> bool {
    before.nodes().dom().contains(n) && !after.nodes().dom().contains(n)
}

/// `path` leads from `from` up to `to` in `before`, each step from a node
/// that is gone in `after` to its parent.
pub open spec fn climbs(
    before: EditorTree,
    after: EditorTree,
    path: Seq<EditorIndex>,
    from: EditorIndex,
    to: EditorIndex,
) -> bool {
    &&& path.len() > 0
    &&& path[0] == from
    &&& path.last() == to
    &&& forall|k: int|
        0 <= k < path.len() - 1 ==> removed(before, after, (#[trigger] path[k]).0) && before.node(
            path[k],
        ).parent_of() == Some(path[k + 1])
}

/// The position of `x` in `t`, counted from one, or 0 when `t` lacks it.
spec fn rank_in(t: Seq<EditorIndex>, x: EditorIndex) -> nat {
    if t.contains(x) {
        (t.index_of(x) + 1) as nat
    } else {
        0
    }
}

/// The nodes among the first `k` of `added` whose parents (listed in
/// `parents`) are `n`, in order.
pub open spec fn adopted_by(added: Seq<EditorIndex>, parents: Seq<EditorIndex>, n: EditorIndex, k: int) -> Seq<
    EditorIndex,
>
    decreases k,
{
    if k <= 0 {
        Seq::empty()
    } else {
        adopted_by(added, parents, n, k - 1) + if parents[k - 1] == n {
            seq![added[k - 1]]
        } else {
            Seq::empty()
        }
    }
}

/// The nodes adopted among the first `k` entries depend on those entries alone.
proof fn lemma_adopted_prefix(
    short: Seq<EditorIndex>,
    long: Seq<EditorIndex>,
    parents: Seq<EditorIndex>,
    n: EditorIndex,
    k: int,
)
    requires
        0 <= k <= short.len(),
        short.len() <= long.len(),
        forall|i: int| 0 <= i < short.len() ==> short[i] == long[i],
    ensures
        adopted_by(short, parents, n, k) == adopted_by(long, parents, n, k),
    decreases k,
{
    if k > 0 {
        lemma_adopted_prefix(short, long, parents, n, k - 1);
    }
}

/// `after` is `before` with the editors of `queued` added, in order, each as
/// the last child of the node it names, at the new indices `added`.
pub open spec fn adopted(
    before: EditorTree,
    queued: Seq<(EditorIndex, ManagedEditor)>,
    added: Seq<EditorIndex>,
    after: EditorTree,
) -> bool {
    let parents = queued.map_values(|q: (EditorIndex, ManagedEditor)| q.0);
    &&& after.root_index() == before.root_index()
    &&& added.len() == queued.len()
    &&& added.no_duplicates()
    &&& forall|i: int| 0 <= i < added.len() ==> !before.contains(#[trigger] added[i])
    &&& after.nodes().dom() == before.nodes().dom() + added.map_values(|a: EditorIndex| a.0).to_set()
    &&& forall|i: int|
        0 <= i < added.len() ==> {
            &&& after.node(#[trigger] added[i]).editor_of() == queued[i].1
            &&& after.node(added[i]).parent_of() == Some(queued[i].0)
            &&& after.node(added[i]).children_of().len() == 0
        }
    &&& forall|n: u64|
        #[trigger] before.nodes().dom().contains(n) ==> {
            &&& after.nodes()[n].editor_of() == before.nodes()[n].editor_of()
            &&& after.nodes()[n].parent_of() == before.nodes()[n].parent_of()
            &&& after.nodes()[n].children_of() == before.nodes()[n].children_of() + adopted_by(
                added,
                parents,
                EditorIndex(n),
                added.len() as int,
            )
        }
}

impl EditorTree {
    /// Removes the nodes `t` lists, last first, from a tree in which `t` is
    /// a subtree listing: each is a leaf when its turn comes.
    fn remove_listed(&mut self, t: &Vec<EditorIndex>, Ghost(before): Ghost<EditorTree>, Ghost(gone0): Ghost<Set<u64>>)
        requires
            before.wf(),
            old(self).wf(),
            pruned(before, *old(self), gone0),
            subtree_listing(*old(self), t@),
        ensures
            final(self).wf(),
            pruned(before, *final(self), gone0.union(listed(t@, 0))),
    {
        let ghost mid = *self;
        let mut k: usize = t.len();
        proof {
            assert(listed(t@, k as int) =~= Set::<u64>::empty());
            assert(gone0.union(listed(t@, k as int)) =~= gone0);
        }
        while k > 0
            invariant
                before.wf(),
                mid.wf(),
                pruned(before, mid, gone0),
                subtree_listing(mid, t@),
                k <= t@.len(),
                self.wf(),
                pruned(before, *self, gone0.union(listed(t@, k as int))),
            decreases k,
        {
            let x = t[k - 1];
            let ghost g = gone0.union(listed(t@, k as int));
            let ghost cur = *self;
            proof {
                let i = k - 1;
                assert(mid.contains(t@[i as int]));
                assert(!listed(t@, k as int).contains(x.0)) by {
                    if listed(t@, k as int).contains(x.0) {
                        let m = choose|m: int| k <= m < t@.len() && (#[trigger] t@[m]).0 == x.0;
                        assert(t@[m] == x);
                    }
                }
                assert(cur.contains(x));
                assert(x != cur.root_index()) by {
                    if i > 0 {
                        assert(mid.parent_in(t@[i as int], t@.take(i as int)));
                    }
                }
                let bcs = before.nodes()[x.0].children_of();
                assert forall|c: int| 0 <= c < bcs.len() implies g.contains((#[trigger] bcs[c]).0) by {
                    let ch = bcs[c];
                    assert(before.contains(ch));
                    assert(before.node(ch).parent_of() == Some(x));
                    if !gone0.contains(ch.0) {
                        assert(mid.contains(ch));
                        assert(bcs.contains(ch));
                        lemma_kept_has(bcs, gone0, ch);
                        let mcs = mid.node(x).children_of();
                        assert(mcs == kept(bcs, gone0));
                        let ci = choose|ci: int| 0 <= ci < mcs.len() && mcs[ci] == ch;
                        assert(t@.contains(mid.node(t@[i as int]).children_of()[ci]));
                        let j = choose|j: int| 0 <= j < t@.len() && t@[j] == ch;
                        assert(mid.node(ch).parent_of() == Some(x));
                        if j == 0 {
                            lemma_listing_depths(mid, t@, i as int);
                            assert(mid.depths().dom().contains(ch.0));
                            assert(ch != mid.root_index());
                            assert(false);
                        } else {
                            assert(mid.parent_in(t@[j], t@.take(j)));
                            let q = choose|q: int| 0 <= q < t@.take(j).len() && t@.take(j)[q] == x;
                            assert(t@[q] == x);
                            assert(q == i);
                            assert(listed(t@, k as int).contains(t@[j].0));
                        }
                    }
                }
                assert(cur.node(x).children_of() == kept(bcs, g));
                lemma_kept_all_gone(bcs, g);
                assert(cur.nodes().dom().contains(x.0));
            }
            let _ = self.remove(x);
            proof {
                let after = *self;
                let g2 = gone0.union(listed(t@, k - 1));
                assert(g2 =~= g.insert(x.0)) by {
                    assert forall|b: u64| g2.contains(b) <==> g.insert(x.0).contains(b) by {
                        if listed(t@, k - 1).contains(b) {
                            let m = choose|m: int| k - 1 <= m < t@.len() && (#[trigger] t@[m]).0 == b;
                            if m >= k {
                                assert(listed(t@, k as int).contains(b));
                            }
                        }
                        if b == x.0 {
                            assert(t@[k - 1].0 == b);
                        }
                        if listed(t@, k as int).contains(b) {
                            let m = choose|m: int| k <= m < t@.len() && (#[trigger] t@[m]).0 == b;
                            assert(k - 1 <= m);
                        }
                    }
                }
                let p = cur.node(x).parent_of()->0;
                assert(after.nodes().dom() =~= before.nodes().dom().difference(g2));
                assert forall|n: u64| #[trigger] after.nodes().dom().contains(n) implies {
                    &&& after.nodes()[n].editor_of() == before.nodes()[n].editor_of()
                    &&& after.nodes()[n].parent_of() == before.nodes()[n].parent_of()
                    &&& after.nodes()[n].children_of() == kept(before.nodes()[n].children_of(), g2)
                } by {
                    let bcs = before.nodes()[n].children_of();
                    if n == p.0 {
                        lemma_kept_step(bcs, g, x);
                    } else {
                        assert(!bcs.contains(x)) by {
                            if bcs.contains(x) {
                                let c = choose|c: int| 0 <= c < bcs.len() && bcs[c] == x;
                                assert(before.contains(bcs[c]));
                                assert(before.node(x).parent_of() == Some(EditorIndex(n)));
                            }
                        }
                        lemma_kept_absent(bcs, g, x);
                    }
                }
            }
            k = k - 1;
        }
    }

    /// Removes the editors whose handles were dropped (`dangling`, none of
    /// them the root) with every editor below them, and moves the active
    /// editor up to its nearest ancestor that stays, which it returns. Each
    /// removal takes a leaf: the nodes below an editor go before it.
    pub fn prune_dangling(&mut self, active: EditorIndex, dangling: &Vec<EditorIndex>) -> (new_active: EditorIndex)
        requires
            old(self).wf(),
            old(self).contains(active),
            forall|i: int|
                0 <= i < dangling@.len() ==> old(self).contains(#[trigger] dangling@[i]) && dangling@[i]
                    != old(self).root_index(),
        ensures
            final(self).wf(),
            pruned(*old(self), *final(self), old(self).nodes().dom().difference(final(self).nodes().dom())),
            forall|i: int| 0 <= i < dangling@.len() ==> !final(self).contains(#[trigger] dangling@[i]),
            forall|n: u64, c: int|
                removed(*old(self), *final(self), n) && 0 <= c < old(self).nodes()[n].children_of().len()
                    ==> removed(*old(self), *final(self), (#[trigger] old(self).nodes()[n].children_of()[c]).0),
            forall|n: u64|
                #[trigger] removed(*old(self), *final(self), n) ==> dangling@.contains(EditorIndex(n)) || removed(
                    *old(self),
                    *final(self),
                    (old(self).nodes()[n].parent_of()->0).0,
                ),
            forall|n: u64|
                #[trigger] old(self).nodes().dom().contains(n) ==> (removed(*old(self), *final(self), n)
                    <==> under_dangling(*old(self), dangling@, n)),
            final(self).contains(new_active),
            exists|path: Seq<EditorIndex>| climbs(*old(self), *final(self), path, active, new_active),
    {
        let ghost before = *self;
        let ghost mut gone: Set<u64> = Set::empty();
        let ghost mut path: Seq<EditorIndex> = seq![active];
        let ghost start = active;
        let mut active = active;
        proof {
            assert(before.nodes().dom().difference(gone) =~= before.nodes().dom());
            assert forall|n: u64| #[trigger] before.nodes().dom().contains(n) implies before.nodes()[n].children_of()
                == kept(before.nodes()[n].children_of(), gone) by {
                lemma_kept_none(before.nodes()[n].children_of());
            }
        }
        let mut i: usize = 0;
        while i < dangling.len()
            invariant
                before == *old(self),
                before.wf(),
                forall|i: int|
                    0 <= i < dangling@.len() ==> before.contains(#[trigger] dangling@[i]) && dangling@[i]
                        != before.root_index(),
                i <= dangling@.len(),
                self.wf(),
                pruned(before, *self, gone),
                forall|k: int| 0 <= k < i ==> gone.contains((#[trigger] dangling@[k]).0),
                forall|r: u64, c: int|
                    gone.contains(r) && 0 <= c < before.nodes()[r].children_of().len() ==> gone.contains(
                        (#[trigger] before.nodes()[r].children_of()[c]).0,
                    ),
                forall|r: u64|
                    #[trigger] gone.contains(r) ==> dangling@.take(i as int).contains(EditorIndex(r))
                        || gone.contains((before.nodes()[r].parent_of()->0).0),
                self.contains(active),
                path.len() > 0,
                path[0] == start,
                path.last() == active,
                forall|k: int|
                    0 <= k < path.len() - 1 ==> gone.contains((#[trigger] path[k]).0) && before.node(
                        path[k],
                    ).parent_of() == Some(path[k + 1]),
            decreases dangling.len() - i,
        {
            let d = dangling[i];
            if self.holds(d) {
                let ghost mid = *self;
                let t = self.traverse_from(d);
                proof {
                    assert(t@[0] == d);
                    assert(subtree_listing(mid, t@));
                }
                let ghost path0 = path;
                while contains_index(&t, active)
                    invariant
                        mid == *self,
                        mid.wf(),
                        subtree_listing(mid, t@),
                        pruned(before, mid, gone),
                        self.contains(active),
                        path.len() > 0,
                        path[0] == path0[0],
                        path.last() == active,
                        forall|k: int|
                            0 <= k < path.len() - 1 ==> (gone.contains((#[trigger] path[k]).0) || t@.contains(
                                path[k],
                            )) && before.node(path[k]).parent_of() == Some(path[k + 1]),
                    decreases rank_in(t@, active),
                {
                    let ghost j = t@.index_of(active);
                    proof {
                        assert(active != mid.root_index()) by {
                            if j == 0 {
                            } else {
                                assert(mid.parent_in(t@[j], t@.take(j)));
                            }
                        }
                    }
                    let parent = match self.get(active).parent() {
                        Some(p) => p,
                        None => {
                            assert(false);
                            active
                        },
                    };
                    proof {
                        let old_path = path;
                        path = path.push(parent);
                        assert(before.node(active).parent_of() == Some(parent));
                        assert forall|k: int| 0 <= k < path.len() - 1 implies (gone.contains(
                            (#[trigger] path[k]).0,
                        ) || t@.contains(path[k])) && before.node(path[k]).parent_of() == Some(path[k + 1]) by {
                            if k < old_path.len() - 1 {
                                assert(path[k] == old_path[k] && path[k + 1] == old_path[k + 1]);
                            } else {
                                assert(path[k] == active);
                            }
                        }
                        if j > 0 {
                            assert(mid.parent_in(t@[j], t@.take(j)));
                            let q = choose|q: int| 0 <= q < t@.take(j).len() && t@.take(j)[q] == parent;
                            assert(t@[q] == parent);
                            assert(t@.index_of(parent) == q) by {
                                assert(t@.contains(parent));
                            }
                        } else {
                            if t@.contains(parent) {
                                let q = t@.index_of(parent);
                                assert(t@[q] == parent);
                                if q > 0 {
                                    assert(mid.parent_in(t@[q], t@.take(q)));
                                }
                                lemma_listing_depths(mid, t@, q);
                                assert(mid.depths().dom().contains(active.0));
                                assert(false);
                            }
                        }
                    }
                    active = parent;
                }
                self.remove_listed(&t, Ghost(before), Ghost(gone));
                proof {
                    let g2 = gone.union(listed(t@, 0));
                    assert(listed(t@, 0).contains(d.0)) by {
                        assert(t@[0].0 == d.0);
                    }
                    assert forall|r: u64, c: int|
                        g2.contains(r) && 0 <= c < before.nodes()[r].children_of().len() implies g2.contains(
                            (#[trigger] before.nodes()[r].children_of()[c]).0,
                        ) by {
                        let bcs = before.nodes()[r].children_of();
                        let ch = bcs[c];
                        if !gone.contains(r) && !gone.contains(ch.0) {
                            let j = choose|j: int| 0 <= j < t@.len() && (#[trigger] t@[j]).0 == r;
                            assert(t@[j] == EditorIndex(r));
                            assert(mid.contains(t@[j]));
                            assert(bcs.contains(ch));
                            lemma_kept_has(bcs, gone, ch);
                            let mcs = mid.node(t@[j]).children_of();
                            let ci = choose|ci: int| 0 <= ci < mcs.len() && mcs[ci] == ch;
                            assert(t@.contains(mid.node(t@[j]).children_of()[ci]));
                            let m = choose|m: int| 0 <= m < t@.len() && t@[m] == ch;
                            assert(listed(t@, 0).contains(t@[m].0));
                        }
                    }
                    assert forall|r: u64|
                        #[trigger] g2.contains(r) implies dangling@.take(i + 1).contains(EditorIndex(r))
                            || g2.contains((before.nodes()[r].parent_of()->0).0) by {
                        assert(dangling@.take(i + 1)[i as int] == d);
                        if gone.contains(r) {
                            if dangling@.take(i as int).contains(EditorIndex(r)) {
                                let q = choose|q: int|
                                    0 <= q < dangling@.take(i as int).len() && dangling@.take(i as int)[q]
                                        == EditorIndex(r);
                                assert(dangling@.take(i + 1)[q] == EditorIndex(r));
                            }
                        } else {
                            let j = choose|j: int| 0 <= j < t@.len() && (#[trigger] t@[j]).0 == r;
                            assert(t@[j] == EditorIndex(r));
                            if j > 0 {
                                assert(mid.parent_in(t@[j], t@.take(j)));
                                let p = mid.node(t@[j]).parent_of()->0;
                                let q = choose|q: int| 0 <= q < t@.take(j).len() && t@.take(j)[q] == p;
                                assert(t@[q] == p);
                                assert(listed(t@, 0).contains(t@[q].0));
                            }
                        }
                    }
                    assert forall|k: int| 0 <= k < i + 1 implies g2.contains((#[trigger] dangling@[k]).0) by {}
                    assert forall|k: int|
                        0 <= k < path.len() - 1 implies g2.contains((#[trigger] path[k]).0) by {
                        if t@.contains(path[k]) {
                            let m = choose|m: int| 0 <= m < t@.len() && t@[m] == path[k];
                            assert(listed(t@, 0).contains(t@[m].0));
                        }
                    }
                    gone = g2;
                }
            } else {
                proof {
                    assert(before.contains(d));
                    assert(gone.contains(d.0));
                    assert forall|r: u64|
                        #[trigger] gone.contains(r) implies dangling@.take(i + 1).contains(EditorIndex(r))
                            || gone.contains((before.nodes()[r].parent_of()->0).0) by {
                        if dangling@.take(i as int).contains(EditorIndex(r)) {
                            let q = choose|q: int|
                                0 <= q < dangling@.take(i as int).len() && dangling@.take(i as int)[q]
                                    == EditorIndex(r);
                            assert(dangling@.take(i + 1)[q] == EditorIndex(r));
                        }
                    }
                }
            }
            i = i + 1;
        }
        proof {
            assert(dangling@.take(dangling@.len() as int) =~= dangling@);
            assert(gone =~= before.nodes().dom().difference(self.nodes().dom()));
            assert(climbs(before, *self, path, start, active));
            assert(pruned(before, *self, before.nodes().dom().difference(self.nodes().dom())));
            law_pruning_removes_dangling_subtrees(before, *self, dangling@);
        }
        active
    }

    /// Adds the editors that editors asked for, in order, each as the last
    /// child of the editor that asked; then makes active an editor whose
    /// handle is `visit`, when the tree holds one (the last of them in the
    /// arena's order), and returns the active editor.
    pub fn adopt_editors(
        &mut self,
        active: EditorIndex,
        queued: Vec<(EditorIndex, ManagedEditor)>,
        visit: Option<u64>,
    ) -> (new_active: EditorIndex)
        requires
            old(self).wf(),
            old(self).contains(active),
            forall|i: int| 0 <= i < queued@.len() ==> old(self).contains((#[trigger] queued@[i]).0),
            old(self).nodes().dom().len() + queued@.len() < u32::MAX,
        ensures
            final(self).wf(),
            exists|added: Seq<EditorIndex>| adopted(*old(self), queued@, added, *final(self)),
            final(self).contains(new_active),
            match visit {
                Some(h) => if exists|n: u64|
                    #[trigger] final(self).nodes().dom().contains(n) && final(self).nodes()[n].editor_of().handle
                        == h {
                    final(self).node(new_active).editor_of().handle == h
                } else {
                    new_active == active
                },
                None => new_active == active,
            },
    {
        let ghost before = *self;
        let ghost orig = queued@;
        let ghost parents = orig.map_values(|q: (EditorIndex, ManagedEditor)| q.0);
        let ghost mut added: Seq<EditorIndex> = Seq::empty();
        let mut queued = queued;
        proof {
            assert(self.nodes().dom() =~= before.nodes().dom() + added.map_values(|a: EditorIndex| a.0).to_set());
            assert forall|n: u64| #[trigger] before.nodes().dom().contains(n) implies self.nodes()[n].children_of()
                == before.nodes()[n].children_of() + adopted_by(added, parents, EditorIndex(n), 0) by {
                assert(before.nodes()[n].children_of() + adopted_by(added, parents, EditorIndex(n), 0)
                    =~= before.nodes()[n].children_of());
            }
        }
        while queued.len() > 0
            invariant
                before.wf(),
                parents == orig.map_values(|q: (EditorIndex, ManagedEditor)| q.0),
                forall|i: int| 0 <= i < orig.len() ==> before.contains((#[trigger] orig[i]).0),
                before.nodes().dom().len() + orig.len() < u32::MAX,
                before.contains(active),
                added.len() + queued@.len() == orig.len(),
                queued@ == orig.skip(added.len() as int),
                self.wf(),
                self.nodes().dom().len() == before.nodes().dom().len() + added.len(),
                self.root_index() == before.root_index(),
                added.no_duplicates(),
                forall|i: int| 0 <= i < added.len() ==> !before.contains(#[trigger] added[i]),
                self.nodes().dom() == before.nodes().dom() + added.map_values(|a: EditorIndex| a.0).to_set(),
                forall|i: int|
                    0 <= i < added.len() ==> {
                        &&& self.node(#[trigger] added[i]).editor_of() == orig[i].1
                        &&& self.node(added[i]).parent_of() == Some(orig[i].0)
                        &&& self.node(added[i]).children_of().len() == 0
                    },
                forall|n: u64|
                    #[trigger] before.nodes().dom().contains(n) ==> {
                        &&& self.nodes()[n].editor_of() == before.nodes()[n].editor_of()
                        &&& self.nodes()[n].parent_of() == before.nodes()[n].parent_of()
                        &&& self.nodes()[n].children_of() == before.nodes()[n].children_of() + adopted_by(
                            added,
                            parents,
                            EditorIndex(n),
                            added.len() as int,
                        )
                    },
            decreases queued.len(),
        {
            let ghost k = added.len() as int;
            let (parent, editor) = queued.remove(0);
            proof {
                assert(orig[k] == (parent, editor));
                assert(before.contains(parent));
                assert(self.nodes().dom().contains(parent.0));
            }
            let ghost cur = *self;
            let res = self.insert(parent, editor);
            proof {
                let old_added = added;
                added = added.push(res);
                assert(queued@ =~= orig.skip(added.len() as int));
                assert(!before.contains(res)) by {
                    assert(cur.nodes().dom().contains(res.0) == false);
                }
                assert(!old_added.contains(res)) by {
                    if old_added.contains(res) {
                        let q = choose|q: int| 0 <= q < old_added.len() && old_added[q] == res;
                        assert(old_added.map_values(|a: EditorIndex| a.0)[q] == res.0);
                        assert(cur.nodes().dom().contains(res.0));
                    }
                }
                assert forall|a: int, b: int| 0 <= a < added.len() && 0 <= b < added.len() && a != b implies added[a]
                    != added[b] by {
                    if a < old_added.len() && b < old_added.len() {
                    } else if a == old_added.len() {
                        assert(old_added.contains(added[b]) || b == a);
                    } else {
                        assert(old_added.contains(added[a]));
                    }
                }
                let ms = added.map_values(|a: EditorIndex| a.0);
                let old_ms = old_added.map_values(|a: EditorIndex| a.0);
                assert(ms =~= old_ms.push(res.0));
                assert forall|b: u64| self.nodes().dom().contains(b) <==> (before.nodes().dom()
                    + ms.to_set()).contains(b) by {
                    if b == res.0 {
                        assert(ms[ms.len() - 1] == b);
                    } else {
                        if old_ms.to_set().contains(b) {
                            let q = choose|q: int| 0 <= q < old_ms.len() && old_ms[q] == b;
                            assert(ms[q] == b);
                        }
                        if ms.to_set().contains(b) {
                            let q = choose|q: int| 0 <= q < ms.len() && ms[q] == b;
                            assert(q < old_ms.len());
                            assert(old_ms[q] == b);
                        }
                    }
                }
                assert(self.nodes().dom() =~= before.nodes().dom() + added.map_values(|a: EditorIndex| a.0).to_set());
                assert forall|i: int| 0 <= i < added.len() implies {
                    &&& self.node(#[trigger] added[i]).editor_of() == orig[i].1
                    &&& self.node(added[i]).parent_of() == Some(orig[i].0)
                    &&& self.node(added[i]).children_of().len() == 0
                } by {
                    if i < old_added.len() {
                        assert(added[i] == old_added[i]);
                        assert(old_added[i] != parent) by {
                            assert(!before.contains(old_added[i]));
                        }
                        assert(cur.nodes().dom().contains(old_added[i].0)) by {
                            assert(old_added.map_values(|a: EditorIndex| a.0)[i] == old_added[i].0);
                        }
                    }
                }
                assert forall|n: u64| #[trigger] before.nodes().dom().contains(n) implies {
                    &&& self.nodes()[n].editor_of() == before.nodes()[n].editor_of()
                    &&& self.nodes()[n].parent_of() == before.nodes()[n].parent_of()
                    &&& self.nodes()[n].children_of() == before.nodes()[n].children_of() + adopted_by(
                        added,
                        parents,
                        EditorIndex(n),
                        added.len() as int,
                    )
                } by {
                    assert(parents[k] == parent);
                    assert(adopted_by(added, parents, EditorIndex(n), k) == adopted_by(
                        old_added,
                        parents,
                        EditorIndex(n),
                        k,
                    )) by {
                        lemma_adopted_prefix(old_added, added, parents, EditorIndex(n), k);
                    }
                    let bc = before.nodes()[n].children_of();
                    let ab = adopted_by(old_added, parents, EditorIndex(n), k);
                    assert(cur.nodes()[n].children_of() == bc + ab);
                    assert(cur.nodes().dom().contains(n));
                    assert(added[k] == res);
                    assert(adopted_by(added, parents, EditorIndex(n), k + 1) == adopted_by(
                        added,
                        parents,
                        EditorIndex(n),
                        k,
                    ) + if parents[k] == EditorIndex(n) {
                        seq![added[k]]
                    } else {
                        Seq::<EditorIndex>::empty()
                    });
                    if n == parent.0 {
                        assert(parent == EditorIndex(n));
                        assert(self.nodes()[n].children_of() == cur.nodes()[n].children_of().push(res));
                        assert(bc + ab.push(res) =~= (bc + ab).push(res));
                        assert(ab + seq![res] =~= ab.push(res));
                    } else {
                        assert(EditorIndex(n) != parent);
                        assert(self.nodes()[n] == cur.nodes()[n]);
                        assert(ab + Seq::<EditorIndex>::empty() =~= ab);
                    }
                }
            }
        }
        proof {
            assert(added.len() == orig.len());
            assert(adopted(before, orig, added, *self));
        }
        let mut new_active = active;
        if let Some(h) = visit {
            let all = self.indices();
            let mut j: usize = 0;
            let ghost mut found = false;
            while j < all.len()
                invariant
                    self.wf(),
                    self.contains(new_active),
                    j <= all@.len(),
                    all@.no_duplicates(),
                    forall|i: EditorIndex| all@.contains(i) <==> self.contains(i),
                    found ==> self.node(new_active).editor_of().handle == h,
                    !found ==> new_active == active,
                    found <==> exists|q: int| 0 <= q < j && self.node(#[trigger] all@[q]).editor_of().handle == h,
                decreases all.len() - j,
            {
                let ix = all[j];
                assert(all@.contains(ix));
                if self.get(ix).editor().handle == h {
                    new_active = ix;
                    proof {
                        found = true;
                    }
                }
                j = j + 1;
            }
            proof {
                if exists|n: u64| #[trigger] self.nodes().dom().contains(n) && self.nodes()[n].editor_of().handle == h {
                    let n = choose|n: u64| #[trigger] self.nodes().dom().contains(n) && self.nodes()[n].editor_of().handle == h;
                    assert(self.contains(EditorIndex(n)));
                    let q = choose|q: int| 0 <= q < all@.len() && all@[q] == EditorIndex(n);
                    assert(self.node(all@[q]).editor_of().handle == h);
                }
            }
        }
        new_active
    }

    /// The rest of a frame of the editor window, given the active editor,
    /// the topology flag of its shared data and what its update returned:
    /// the editors that get one background update each (all but the active
    /// one, in the arena's order), and the flag afterwards, raised when the
    /// update changed the topology and never lowered here.
    pub fn frame_tasks(&self, active: EditorIndex, flag: bool, result: UpdateResult) -> (res: (
        Vec<EditorIndex>,
        bool,
    ))
        ensures
            res.0@.no_duplicates(),
            forall|i: EditorIndex| res.0@.contains(i) <==> (self.contains(i) && i != active),
            res.1 == (flag || result == UpdateResult::TopologyChanged),
    {
        let all = self.indices();
        let mut others: Vec<EditorIndex> = Vec::new();
        let mut k: usize = 0;
        while k < all.len()
            invariant
                k <= all@.len(),
                all@.no_duplicates(),
                forall|i: EditorIndex| all@.contains(i) <==> self.contains(i),
                others@.no_duplicates(),
                forall|i: EditorIndex| others@.contains(i) <==> (all@.take(k as int).contains(i) && i != active),
            decreases all.len() - k,
        {
            let ix = all[k];
            let ghost before = others@;
            let ghost t0 = all@.take(k as int);
            let ghost t1 = all@.take(k + 1);
            proof {
                assert(t1 =~= t0.push(ix));
            }
            if ix != active {
                others.push(ix);
                proof {
                    assert(!before.contains(ix)) by {
                        if before.contains(ix) {
                            let q = choose|q: int| 0 <= q < k && #[trigger] t0[q] == ix;
                            assert(all@[q] == all@[k as int]);
                        }
                    }
                    assert forall|a: int, b: int|
                        0 <= a < others@.len() && 0 <= b < others@.len() && a != b implies others@[a] != others@[b] by {
                        if a == before.len() {
                            assert(before.contains(others@[b]));
                        } else if b == before.len() {
                            assert(before.contains(others@[a]));
                        }
                    }
                    assert forall|i: EditorIndex| others@.contains(i) <==> (t1.contains(i) && i != active) by {
                        if others@.contains(i) && !before.contains(i) {
                            let q = choose|q: int| 0 <= q < others@.len() && #[trigger] others@[q] == i;
                            assert(q == before.len());
                            assert(t1[k as int] == i);
                        }
                        if before.contains(i) {
                            let q = choose|q: int| 0 <= q < before.len() && #[trigger] before[q] == i;
                            assert(others@[q] == i);
                            let r = choose|r: int| 0 <= r < k && #[trigger] t0[r] == i;
                            assert(t1[r] == i);
                        }
                        if t1.contains(i) && i != active {
                            let r = choose|r: int| 0 <= r <= k && #[trigger] t1[r] == i;
                            if r < k {
                                assert(t0[r] == i);
                            } else {
                                assert(others@[before.len() as int] == i);
                            }
                        }
                    }
                }
            } else {
                proof {
                    assert forall|i: EditorIndex| others@.contains(i) <==> (t1.contains(i) && i != active) by {
                        if before.contains(i) {
                            let r = choose|r: int| 0 <= r < k && #[trigger] t0[r] == i;
                            assert(t1[r] == i);
                        }
                        if t1.contains(i) && i != active {
                            let r = choose|r: int| 0 <= r <= k && #[trigger] t1[r] == i;
                            assert(r < k);
                            assert(t0[r] == i);
                        }
                    }
                }
            }
            k = k + 1;
        }
        proof {
            assert(all@.take(all@.len() as int) =~= all@);
        }
        let raised = match result {
            UpdateResult::TopologyChanged => true,
            UpdateResult::Unchanged => flag,
        };
        (others, raised)
    }
}

/// `path` leads up from its first node to its last in `t`, each step from
/// a node to its parent.
pub open spec fn up_path(t: EditorTree, path: Seq<EditorIndex>) -> bool {
    &&& path.len() > 0
    &&& forall|k: int| 0 <= k < path.len() ==> t.contains(#[trigger] path[k])
    &&& forall|k: int| 0 <= k < path.len() - 1 ==> t.node(#[trigger] path[k]).parent_of() == Some(path[k + 1])
}

/// Node `n` of `t` is one of `dangling` or lies below one of them.
pub open spec fn under_dangling(t: EditorTree, dangling: Seq<EditorIndex>, n: u64) -> bool {
    exists|path: Seq<EditorIndex>|
        #[trigger] up_path(t, path) && path[0] == EditorIndex(n) && dangling.contains(path.last())
}

/// What a frame's pruning removes: after `prune_dangling` has run (its
/// `ensures` are this law's `requires`), a node of the old tree is gone
/// exactly when it is a dangling editor or lies below one; every other
/// node, the root among them, stays.
pub proof fn law_pruning_removes_dangling_subtrees(
    before: EditorTree,
    after: EditorTree,
    dangling: Seq<EditorIndex>,
)
    requires
        before.wf(),
        after.wf(),
        pruned(before, after, before.nodes().dom().difference(after.nodes().dom())),
        forall|i: int| 0 <= i < dangling.len() ==> !after.contains(#[trigger] dangling[i]),
        forall|i: int| 0 <= i < dangling.len() ==> before.contains(#[trigger] dangling[i]),
        forall|n: u64, c: int|
            removed(before, after, n) && 0 <= c < before.nodes()[n].children_of().len() ==> removed(
                before,
                after,
                (#[trigger] before.nodes()[n].children_of()[c]).0,
            ),
        forall|n: u64|
            #[trigger] removed(before, after, n) ==> dangling.contains(EditorIndex(n)) || removed(
                before,
                after,
                (before.nodes()[n].parent_of()->0).0,
            ),
    ensures
        forall|n: u64|
            #[trigger] before.nodes().dom().contains(n) ==> (removed(before, after, n) <==> under_dangling(
                before,
                dangling,
                n,
            )),
        after.contains(after.root_index()),
        after.nodes().dom().subset_of(before.nodes().dom()),
{
    assert forall|n: u64| #[trigger] before.nodes().dom().contains(n) implies (removed(before, after, n)
        <==> under_dangling(before, dangling, n)) by {
        if removed(before, after, n) {
            lemma_removed_is_under(before, after, dangling, n);
        }
        if under_dangling(before, dangling, n) {
            let path = choose|path: Seq<EditorIndex>|
                #[trigger] up_path(before, path) && path[0] == EditorIndex(n) && dangling.contains(path.last());
            lemma_under_is_removed(before, after, dangling, path, 0);
        }
    }
}

proof fn lemma_removed_is_under(before: EditorTree, after: EditorTree, dangling: Seq<EditorIndex>, n: u64)
    requires
        before.wf(),
        after.wf(),
        pruned(before, after, before.nodes().dom().difference(after.nodes().dom())),
        forall|n: u64|
            #[trigger] removed(before, after, n) ==> dangling.contains(EditorIndex(n)) || removed(
                before,
                after,
                (before.nodes()[n].parent_of()->0).0,
            ),
        removed(before, after, n),
    ensures
        under_dangling(before, dangling, n),
    decreases before.depths()[n],
{
    if dangling.contains(EditorIndex(n)) {
        let path = seq![EditorIndex(n)];
        assert(up_path(before, path));
    } else {
        assert(n != before.root_index().0) by {
            assert(after.contains(after.root_index()));
        }
        let p = before.nodes()[n].parent_of()->0;
        assert(before.contains(p));
        assert(removed(before, after, p.0));
        assert(before.depths().dom().contains(n));
        lemma_removed_is_under(before, after, dangling, p.0);
        let rest = choose|path: Seq<EditorIndex>|
            #[trigger] up_path(before, path) && path[0] == EditorIndex(p.0) && dangling.contains(path.last());
        let path = seq![EditorIndex(n)] + rest;
        assert forall|k: int| 0 <= k < path.len() implies before.contains(#[trigger] path[k]) by {
            if k > 0 {
                assert(path[k] == rest[k - 1]);
            }
        }
        assert forall|k: int| 0 <= k < path.len() - 1 implies before.node(#[trigger] path[k]).parent_of()
            == Some(path[k + 1]) by {
            if k > 0 {
                assert(path[k] == rest[k - 1] && path[k + 1] == rest[k]);
            } else {
                assert(path[1] == rest[0]);
                assert(rest[0] == p);
            }
        }
        assert(path.last() == rest.last());
        assert(up_path(before, path));
    }
}

proof fn lemma_under_is_removed(
    before: EditorTree,
    after: EditorTree,
    dangling: Seq<EditorIndex>,
    path: Seq<EditorIndex>,
    k: int,
)
    requires
        before.wf(),
        pruned(before, after, before.nodes().dom().difference(after.nodes().dom())),
        forall|i: int| 0 <= i < dangling.len() ==> !after.contains(#[trigger] dangling[i]),
        forall|n: u64, c: int|
            removed(before, after, n) && 0 <= c < before.nodes()[n].children_of().len() ==> removed(
                before,
                after,
                (#[trigger] before.nodes()[n].children_of()[c]).0,
            ),
        up_path(before, path),
        dangling.contains(path.last()),
        0 <= k < path.len(),
    ensures
        removed(before, after, path[k].0),
    decreases path.len() - k,
{
    assert(before.contains(path[k]));
    if k == path.len() - 1 {
        let i = choose|i: int| 0 <= i < dangling.len() && dangling[i] == path.last();
        assert(!after.contains(dangling[i]));
    } else {
        lemma_under_is_removed(before, after, dangling, path, k + 1);
        let x = path[k];
        let p = path[k + 1];
        assert(before.node(x).parent_of() == Some(p));
        assert(x != before.root_index());
        let cs = before.nodes()[p.0].children_of();
        assert(cs.contains(EditorIndex(x.0)));
        let c = choose|c: int| 0 <= c < cs.len() && cs[c] == EditorIndex(x.0);
        assert(removed(before, after, cs[c].0));
    }
}

} // verus!
