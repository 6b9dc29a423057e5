use vstd::prelude::*;

verus! {

#[verifier::external_type_specification]
#[verifier::external_body]
#[verifier::reject_recursive_types(T)]
pub struct ExArena<T>(thunderdome::Arena<T>);

/// An editor of the application: its name and the handle by which the
/// application finds its shared state.
pub struct ManagedEditor {
    pub name: String,
    pub handle: u64,
}

impl ManagedEditor {
    pub fn new(name: String, handle: u64) -> (res: Self)
        ensures
            res.name@ == name@,
            res.handle == handle,
    {
        ManagedEditor { name, handle }
    }
}

/// A position in the tree of editors: the bits of its arena index.
#[derive(Clone, Copy, Debug, PartialEq, Eq, Structural)]
pub struct EditorIndex(pub u64);

/// An editor of the tree with its parent (none for the root) and children.
pub struct EditorTreeNode {
    pub editor: ManagedEditor,
    parent: Option<EditorIndex>,
    children: Vec<EditorIndex>,
}

impl EditorTreeNode {
    pub closed spec fn editor_of(&self) -> ManagedEditor {
        self.editor
    }

    pub closed spec fn parent_of(&self) -> Option<EditorIndex> {
        self.parent
    }

    pub closed spec fn children_of(&self) -> Seq<EditorIndex> {
        self.children@
    }

    pub fn editor(&self) -> (res: &ManagedEditor)
        ensures
            *res == self.editor_of(),
    {
        &self.editor
    }

    pub fn parent(&self) -> (res: Option<EditorIndex>)
        ensures
            res == self.parent_of(),
    {
        self.parent
    }

    pub fn children(&self) -> (res: &[EditorIndex])
        ensures
            res@ == self.children_of(),
    {
        self.children.as_slice()
    }
}

/// What an arena of tree nodes holds, by the bits of each index.
pub uninterp spec fn arena_nodes(a: thunderdome::Arena<EditorTreeNode>) -> Map<u64, EditorTreeNode>;

/// The arena without entries.
pub open spec fn no_nodes() -> Map<u64, EditorTreeNode> {
    Map::empty()
}

/// `Arena::new`: an empty arena.
#[verifier::external_body]
fn arena_new() -> (res: thunderdome::Arena<EditorTreeNode>)
    ensures
        arena_nodes(res) == no_nodes(),
{
    thunderdome::Arena::new()
}

/// `Arena::insert`, the index returned as `Index::to_bits`: the value gets
/// an index no entry holds, whose generation is not zero. The arena holds at
/// most `u32::MAX` entries; one more panics.
#[verifier::external_body]
fn arena_insert(a: &mut thunderdome::Arena<EditorTreeNode>, value: EditorTreeNode) -> (res: u64)
    requires
        arena_nodes(*old(a)).dom().finite(),
        arena_nodes(*old(a)).dom().len() < u32::MAX,
    ensures
        res >= 0x1_0000_0000,
        !arena_nodes(*old(a)).dom().contains(res),
        arena_nodes(*final(a)) == arena_nodes(*old(a)).insert(res, value),
{
    a.insert(value).to_bits()
}

/// `Arena::remove` at the index whose bits are given.
#[verifier::external_body]
fn arena_remove(a: &mut thunderdome::Arena<EditorTreeNode>, bits: u64) -> (res: Option<EditorTreeNode>)
    requires
        bits >= 0x1_0000_0000,
    ensures
        arena_nodes(*final(a)) == arena_nodes(*old(a)).remove(bits),
        res == if arena_nodes(*old(a)).dom().contains(bits) {
            Some(arena_nodes(*old(a))[bits])
        } else {
            None
        },
{
    a.remove(thunderdome::Index::from_bits(bits).unwrap())
}

/// `Arena::get` at the index whose bits are given.
#[verifier::external_body]
fn arena_get(a: &thunderdome::Arena<EditorTreeNode>, bits: u64) -> (res: Option<&EditorTreeNode>)
    ensures
        res == if arena_nodes(*a).dom().contains(bits) {
            Some(&arena_nodes(*a)[bits])
        } else {
            None
        },
{
    match thunderdome::Index::from_bits(bits) {
        Some(index) => a.get(index),
        None => None,
    }
}

/// `Arena::get_mut` at the index whose bits are given, for an entry the
/// arena holds: the entry, which the arena then holds as it is left.
#[verifier::external_body]
fn arena_get_mut(a: &mut thunderdome::Arena<EditorTreeNode>, bits: u64) -> (res: &mut EditorTreeNode)
    requires
        arena_nodes(*old(a)).dom().contains(bits),
    ensures
        *res == arena_nodes(*old(a))[bits],
        arena_nodes(*final(a)) == arena_nodes(*old(a)).insert(bits, *final(res)),
{
    &mut a[thunderdome::Index::from_bits(bits).unwrap()]
}

/// `Arena::iter`, each index as its bits; the order is the arena's.
#[verifier::external_body]
fn arena_indices(a: &thunderdome::Arena<EditorTreeNode>) -> (res: Vec<u64>)
    ensures
        res@.no_duplicates(),
        res@.to_set() == arena_nodes(*a).dom(),
{
    a.iter().map(|(index, _)| index.to_bits()).collect()
}

/// The editors of the application, as a tree under the main editor.
pub struct EditorTree {
    root: EditorIndex,
    entries: thunderdome::Arena<EditorTreeNode>,
    /// How far each node lies below the root; it shows that following
    /// parents from any node ends at the root.
    depth: Ghost<Map<u64, nat>>,
}

impl EditorTree {
    /// The nodes by index.
    pub closed spec fn nodes(&self) -> Map<u64, EditorTreeNode> {
        arena_nodes(self.entries)
    }

    pub closed spec fn root_index(&self) -> EditorIndex {
        self.root
    }

    /// How far each node lies below the root.
    pub closed spec fn depths(&self) -> Map<u64, nat> {
        self.depth@
    }

    pub open spec fn contains(&self, i: EditorIndex) -> bool {
        self.nodes().dom().contains(i.0)
    }

    pub open spec fn node(&self, i: EditorIndex) -> EditorTreeNode {
        self.nodes()[i.0]
    }

    /// The parent of node `i` is among `listed`.
    pub open spec fn parent_in(&self, i: EditorIndex, listed: Seq<EditorIndex>) -> bool {
        &&& self.node(i).parent_of() is Some
        &&& listed.contains(self.node(i).parent_of()->0)
    }

    /// Every node but the root has a parent that lists it among its
    /// children; every child lists its parent; no child is listed twice.
    pub open spec fn wf(&self) -> bool {
        &&& self.nodes().dom().finite()
        &&& forall|n: u64| #[trigger] self.nodes().dom().contains(n) ==> n >= 0x1_0000_0000
        &&& self.contains(self.root_index())
        &&& self.node(self.root_index()).parent_of() is None
        &&& forall|n: u64|
            #[trigger] self.nodes().dom().contains(n) && n != self.root_index().0 ==> {
                let p = self.nodes()[n].parent_of();
                &&& p is Some
                &&& self.contains(p->0)
                &&& self.node(p->0).children_of().contains(EditorIndex(n))
            }
        &&& forall|n: u64|
            #[trigger] self.nodes().dom().contains(n) ==> {
                let cs = self.nodes()[n].children_of();
                &&& cs.no_duplicates()
                &&& forall|j: int|
                    0 <= j < cs.len() ==> self.contains(#[trigger] cs[j]) && self.node(cs[j]).parent_of()
                        == Some(EditorIndex(n))
            }
        &&& self.depths_down()
    }

    /// Every node but the root lies deeper than its parent.
    pub open spec fn depths_down(&self) -> bool {
        &&& forall|n: u64| #[trigger] self.depths().dom().contains(n) <==> self.nodes().dom().contains(n)
        &&& forall|n: u64|
            #[trigger] self.depths().dom().contains(n) && n != self.root_index().0 ==> self.depths()[n]
                > self.depths()[(self.nodes()[n].parent_of()->0).0]
    }

    /// A tree of the one editor `editor`.
    pub fn new(editor: ManagedEditor) -> (res: Self)
        ensures
            res.wf(),
            res.nodes().dom() == set![res.root_index().0],
            res.node(res.root_index()).editor_of() == editor,
            res.node(res.root_index()).children_of().len() == 0,
    {
        let mut entries = arena_new();
        let root_node = EditorTreeNode { editor, parent: None, children: Vec::new() };
        proof {
            assert(arena_nodes(entries).dom() =~= Set::<u64>::empty());
        }
        let root = arena_insert(&mut entries, root_node);
        let ghost depth0 = map![root => 0nat];
        let res = EditorTree { root: EditorIndex(root), entries, depth: Ghost(depth0) };
        proof {
            assert(res.nodes().dom() =~= set![root]);
        }
        res
    }

    /// Whether the tree holds a node at `index`.
    pub fn holds(&self, index: EditorIndex) -> (res: bool)
        ensures
            res == self.contains(index),
    {
        arena_get(&self.entries, index.0).is_some()
    }

    pub fn root(&self) -> (res: EditorIndex)
        ensures
            res == self.root_index(),
    {
        self.root
    }

    /// The node at `index`, which the tree must hold.
    pub fn get(&self, index: EditorIndex) -> (res: &EditorTreeNode)
        requires
            self.contains(index),
        ensures
            *res == self.node(index),
    {
        match arena_get(&self.entries, index.0) {
            Some(node) => node,
            None => {
                assert(false);
                arena_get(&self.entries, index.0).unwrap()
            },
        }
    }

    /// The editor at `index`, which the tree must hold, to change in place;
    /// parents and children stay as they are.
    pub fn get_mut(&mut self, index: EditorIndex) -> (res: &mut ManagedEditor)
        requires
            old(self).contains(index),
        ensures
            *res == old(self).node(index).editor_of(),
            final(self).root_index() == old(self).root_index(),
            final(self).nodes().dom() == old(self).nodes().dom(),
            final(self).node(index).editor_of() == *final(res),
            final(self).node(index).parent_of() == old(self).node(index).parent_of(),
            final(self).node(index).children_of() == old(self).node(index).children_of(),
            forall|n: u64|
                #[trigger] old(self).nodes().dom().contains(n) && n != index.0 ==> final(self).nodes()[n]
                    == old(self).nodes()[n],
            final(self).depths() == old(self).depths(),
            old(self).depths_down() ==> final(self).depths_down(),
            old(self).wf() ==> final(self).wf(),
    {
        let node = arena_get_mut(&mut self.entries, index.0);
        &mut node.editor
    }


    /// `after` is `before` with `editor` added as the new node `res`, the
    /// last child of `index`.
    pub open spec fn added_child(
        before: EditorTree,
        index: EditorIndex,
        editor: ManagedEditor,
        res: EditorIndex,
        after: EditorTree,
    ) -> bool {
        &&& after.root_index() == before.root_index()
        &&& !before.contains(res)
        &&& after.nodes().dom() == before.nodes().dom().insert(res.0)
        &&& after.node(res).editor_of() == editor
        &&& after.node(res).parent_of() == Some(index)
        &&& after.node(res).children_of().len() == 0
        &&& after.node(index).children_of() == before.node(index).children_of().push(res)
        &&& after.node(index).editor_of() == before.node(index).editor_of()
        &&& after.node(index).parent_of() == before.node(index).parent_of()
        &&& forall|n: u64|
            #[trigger] before.nodes().dom().contains(n) && n != index.0 ==> after.nodes()[n]
                == before.nodes()[n]
    }

    /// `after` is `before` without the leaf `index`, whose editor `res` was.
    pub open spec fn removed_leaf(
        before: EditorTree,
        index: EditorIndex,
        res: Option<ManagedEditor>,
        after: EditorTree,
    ) -> bool {
        &&& after.root_index() == before.root_index()
        &&& after.nodes().dom() == before.nodes().dom().remove(index.0)
        &&& res == if before.contains(index) {
            Some(before.node(index).editor_of())
        } else {
            None
        }
        &&& before.contains(index) ==> {
            let p = before.node(index).parent_of()->0;
            &&& after.node(p).children_of() == without(before.node(p).children_of(), index)
            &&& after.node(p).editor_of() == before.node(p).editor_of()
            &&& after.node(p).parent_of() == before.node(p).parent_of()
            &&& forall|n: u64|
                #[trigger] after.nodes().dom().contains(n) && n != p.0 ==> after.nodes()[n]
                    == before.nodes()[n]
        }
        &&& !before.contains(index) ==> after.nodes() == before.nodes()
    }

    /// Adds `editor` as the last child of `index`, which the tree must hold.
    pub fn insert(&mut self, index: EditorIndex, editor: ManagedEditor) -> (res: EditorIndex)
        requires
            old(self).wf(),
            old(self).contains(index),
            old(self).nodes().dom().len() < u32::MAX,
        ensures
            final(self).wf(),
            Self::added_child(*old(self), index, editor, res, *final(self)),
    {
        let ghost before = self.nodes();
        let ghost depths0 = self.depths();
        let new_node = EditorTreeNode { editor, parent: Some(index), children: Vec::new() };
        let new_idx = arena_insert(&mut self.entries, new_node);
        let ghost mid = self.nodes();
        {
            let parent = arena_get_mut(&mut self.entries, index.0);
            parent.children.push(EditorIndex(new_idx));
        }
        proof {
            self.depth@ = depths0.insert(new_idx, depths0[index.0] + 1);
        }
        proof {
            let after = self.nodes();
            assert(self.depths().dom() =~= after.dom());
            assert(after.dom() =~= before.dom().insert(new_idx));
            assert forall|n: u64| #[trigger] after.dom().contains(n) && n != self.root.0 implies {
                let p = after[n].parent_of();
                &&& p is Some
                &&& self.contains(p->0)
                &&& self.node(p->0).children_of().contains(EditorIndex(n))
            } by {
                if n == new_idx {
                    assert(self.node(index).children_of().last() == EditorIndex(new_idx));
                } else {
                    let p = before[n].parent_of()->0;
                    assert(before[p.0].children_of().contains(EditorIndex(n)));
                    if p == index {
                        let j = choose|j: int| 0 <= j < before[p.0].children_of().len()
                            && before[p.0].children_of()[j] == EditorIndex(n);
                        assert(self.node(index).children_of()[j] == EditorIndex(n));
                    }
                }
            }
            assert forall|n: u64| #[trigger] after.dom().contains(n) implies {
                let cs = after[n].children_of();
                &&& cs.no_duplicates()
                &&& forall|j: int|
                    0 <= j < cs.len() ==> self.contains(#[trigger] cs[j]) && self.node(cs[j]).parent_of()
                        == Some(EditorIndex(n))
            } by {
                if n == index.0 {
                    let old_cs = before[n].children_of();
                    let cs = after[n].children_of();
                    assert(cs == old_cs.push(EditorIndex(new_idx)));
                    assert(!old_cs.contains(EditorIndex(new_idx))) by {
                        if old_cs.contains(EditorIndex(new_idx)) {
                            let j = choose|j: int| 0 <= j < old_cs.len() && old_cs[j] == EditorIndex(new_idx);
                            assert(before.dom().contains(old_cs[j].0));
                        }
                    }
                    assert forall|a: int, b: int| 0 <= a < cs.len() && 0 <= b < cs.len() && a != b
                        implies cs[a] != cs[b] by {
                        if a < old_cs.len() && b < old_cs.len() {
                        } else if a == old_cs.len() {
                            assert(old_cs.contains(cs[b]) || b == a);
                        } else {
                            assert(old_cs.contains(cs[a]));
                        }
                    }
                    assert forall|j: int| 0 <= j < cs.len() implies self.contains(#[trigger] cs[j])
                        && self.node(cs[j]).parent_of() == Some(EditorIndex(n)) by {
                        if j < old_cs.len() {
                            assert(old_cs[j] == cs[j]);
                            assert(before.dom().contains(old_cs[j].0));
                            assert(old_cs[j].0 != new_idx);
                        }
                    }
                } else if n == new_idx {
                    assert(after[n].children_of().len() == 0);
                } else {
                    let cs = before[n].children_of();
                    assert forall|j: int| 0 <= j < cs.len() implies self.contains(#[trigger] cs[j])
                        && self.node(cs[j]).parent_of() == Some(EditorIndex(n)) by {
                        assert(before.dom().contains(cs[j].0));
                    }
                }
            }
        }
        EditorIndex(new_idx)
    }

    /// Removes the leaf `index` and returns its editor; nothing is removed
    /// when the tree does not hold `index`. The root cannot be removed, and a
    /// node with children cannot either: removing its children would look up
    /// the node itself, which is gone by then.
    pub fn remove(&mut self, index: EditorIndex) -> (res: Option<ManagedEditor>)
        requires
            old(self).wf(),
            index.0 >= 0x1_0000_0000,
            old(self).contains(index) ==> index != old(self).root_index() && old(self).node(
                index,
            ).children_of().len() == 0,
        ensures
            final(self).wf(),
            Self::removed_leaf(*old(self), index, res, *final(self)),
    {
        let ghost before = self.nodes();
        let ghost depths0 = self.depths();
        let removed = arena_remove(&mut self.entries, index.0);
        match removed {
            Some(node) => {
                proof {
                    self.depth@ = depths0.remove(index.0);
                }
                let parent = match node.parent {
                    Some(p) => p,
                    None => {
                        assert(false);
                        index
                    },
                };
                assert(before.dom().contains(parent.0));
                assert(parent != index) by {
                    if parent == index {
                        assert(before[index.0].children_of().contains(index));
                    }
                };
                let ghost mid = self.nodes();
                {
                    let p = arena_get_mut(&mut self.entries, parent.0);
                    let ghost old_children = p.children@;
                    let mut kept: Vec<EditorIndex> = Vec::new();
                    let mut i: usize = 0;
                    while i < p.children.len()
                        invariant
                            p.children@ == old_children,
                            i <= old_children.len(),
                            kept@ == without(old_children.take(i as int), index),
                        decreases p.children.len() - i,
                    {
                        let c = p.children[i];
                        proof {
                            assert(old_children.take(i + 1).drop_last() =~= old_children.take(i as int));
                            reveal_with_fuel(Seq::filter, 1);
                        }
                        if c != index {
                            kept.push(c);
                        }
                        i = i + 1;
                    }
                    proof {
                        assert(old_children.take(old_children.len() as int) =~= old_children);
                    }
                    p.children = kept;
                }
                let ghost after = self.nodes();
                proof {
                    let old_cs = before[parent.0].children_of();
                    let new_cs = after[parent.0].children_of();
                    assert(new_cs == without(old_cs, index));
                    lemma_filter_out_no_dup(old_cs, index);
                    assert(after.dom() =~= before.dom().remove(index.0));
                    assert forall|n: u64| #[trigger] after.dom().contains(n) && n != self.root.0 implies {
                        let p = after[n].parent_of();
                        &&& p is Some
                        &&& self.contains(p->0)
                        &&& self.node(p->0).children_of().contains(EditorIndex(n))
                    } by {
                        let p = before[n].parent_of()->0;
                        assert(before[p.0].children_of().contains(EditorIndex(n)));
                        if p.0 == index.0 {
                            assert(before[index.0].children_of().len() == 0);
                        }
                        if p == parent {
                            assert(EditorIndex(n) != index);
                            lemma_filter_keeps(old_cs, index, EditorIndex(n));
                        }
                    }
                    assert forall|n: u64| #[trigger] after.dom().contains(n) implies {
                        let cs = after[n].children_of();
                        &&& cs.no_duplicates()
                        &&& forall|j: int|
                            0 <= j < cs.len() ==> self.contains(#[trigger] cs[j]) && self.node(cs[j]).parent_of()
                                == Some(EditorIndex(n))
                    } by {
                        let cs = after[n].children_of();
                        if n == parent.0 {
                            assert forall|j: int| 0 <= j < cs.len() implies self.contains(#[trigger] cs[j])
                                && self.node(cs[j]).parent_of() == Some(EditorIndex(n)) by {
                                lemma_filter_member(old_cs, index, j);
                                let k = choose|k: int| 0 <= k < old_cs.len() && old_cs[k] == cs[j];
                                assert(before.dom().contains(old_cs[k].0));
                            }
                        } else {
                            let bcs = before[n].children_of();
                            assert forall|j: int| 0 <= j < cs.len() implies self.contains(#[trigger] cs[j])
                                && self.node(cs[j]).parent_of() == Some(EditorIndex(n)) by {
                                assert(before.dom().contains(bcs[j].0));
                                assert(before[bcs[j].0].parent_of() == Some(EditorIndex(n)));
                                assert(bcs[j] != index);
                            }
                        }
                    }
                }
                Some(node.editor)
            },
            None => {
                proof {
                    assert(self.nodes() =~= before);
                }
                None
            },
        }
    }

    /// The indices of every node, in the arena's order.
    pub fn indices(&self) -> (res: Vec<EditorIndex>)
        ensures
            res@.no_duplicates(),
            forall|i: EditorIndex| res@.contains(i) <==> self.contains(i),
    {
        let bits = arena_indices(&self.entries);
        let mut res: Vec<EditorIndex> = Vec::new();
        let mut k: usize = 0;
        while k < bits.len()
            invariant
                k <= bits@.len(),
                bits@.no_duplicates(),
                res@.len() == k,
                forall|j: int| 0 <= j < k ==> #[trigger] res@[j] == EditorIndex(bits@[j]),
            decreases bits.len() - k,
        {
            res.push(EditorIndex(bits[k]));
            k = k + 1;
        }
        proof {
            assert forall|i: EditorIndex| res@.contains(i) <==> self.contains(i) by {
                if res@.contains(i) {
                    let j = choose|j: int| 0 <= j < res@.len() && res@[j] == i;
                    assert(bits@.to_set().contains(bits@[j]));
                }
                if self.contains(i) {
                    assert(bits@.to_set().contains(i.0));
                    let j = choose|j: int| 0 <= j < bits@.len() && bits@[j] == i.0;
                    assert(res@[j] == i);
                }
            }
            assert forall|a: int, b: int| 0 <= a < res@.len() && 0 <= b < res@.len() && a != b
                implies res@[a] != res@[b] by {
                assert(bits@[a] != bits@[b]);
            }
        }
        res
    }

    /// The nodes of the subtree under `point`, `point` first, each after its
    /// parent, the children of a node in their order (depth first).
    pub fn traverse_from(&self, point: EditorIndex) -> (res: Vec<EditorIndex>)
        requires
            self.wf(),
            self.contains(point),
        ensures
            res@.len() > 0,
            res@[0] == point,
            res@.no_duplicates(),
            forall|j: int| 0 <= j < res@.len() ==> self.contains(#[trigger] res@[j]),
            forall|j: int|
                0 < j < res@.len() ==> self.parent_in(#[trigger] res@[j], res@.take(j)),
            forall|j: int, c: int|
                0 <= j < res@.len() && 0 <= c < self.node(res@[j]).children_of().len()
                    ==> res@.contains(#[trigger] self.node(#[trigger] res@[j]).children_of()[c]),
    {
        let mut res: Vec<EditorIndex> = Vec::new();
        let mut stack: Vec<EditorIndex> = Vec::new();
        stack.push(point);
        let listing = arena_indices(&self.entries);
        let total = listing.len();
        proof {
            listing@.unique_seq_to_set();
        }
        loop
            invariant_except_break
                self.wf(),
                self.contains(point),
                total == self.nodes().dom().len(),
                res@.no_duplicates(),
                forall|j: int| 0 <= j < res@.len() ==> self.contains(#[trigger] res@[j]),
                forall|j: int| 0 <= j < stack@.len() ==> self.contains(#[trigger] stack@[j]),
                res@.len() == 0 ==> stack@ == seq![point],
                res@.len() > 0 ==> res@[0] == point,
                forall|j: int|
                    0 < j < res@.len() ==> self.parent_in(#[trigger] res@[j], res@.take(j)),
                res@.len() > 0 ==> forall|j: int|
                    0 <= j < stack@.len() ==> self.parent_in(#[trigger] stack@[j], res@),
                forall|j: int, c: int|
                    0 <= j < res@.len() && 0 <= c < self.node(res@[j]).children_of().len() ==> res@.contains(
                        #[trigger] self.node(#[trigger] res@[j]).children_of()[c],
                    ) || stack@.contains(self.node(res@[j]).children_of()[c]),
            ensures
                res@.len() > 0,
                res@[0] == point,
                res@.no_duplicates(),
                forall|j: int| 0 <= j < res@.len() ==> self.contains(#[trigger] res@[j]),
                forall|j: int|
                    0 < j < res@.len() ==> self.parent_in(#[trigger] res@[j], res@.take(j)),
                forall|j: int, c: int|
                    0 <= j < res@.len() && 0 <= c < self.node(res@[j]).children_of().len()
                        ==> res@.contains(#[trigger] self.node(#[trigger] res@[j]).children_of()[c]),
            decreases total - res@.len(), stack@.len(),
        {
            let ghost stack0 = stack@;
            let ghost res0 = res@;
            let top = stack.pop();
            match top {
                None => {
                    break;
                },
                Some(at) => {
                    if contains_index(&res, at) {
                        proof {
                            assert forall|j: int, c: int|
                                0 <= j < res@.len() && 0 <= c < self.node(res@[j]).children_of().len()
                                    implies res@.contains(#[trigger] self.node(#[trigger] res@[j]).children_of()[c])
                                    || stack@.contains(self.node(res@[j]).children_of()[c]) by {
                                let ch = self.node(res@[j]).children_of()[c];
                                if !res@.contains(ch) {
                                    assert(stack0.contains(ch));
                                    let k = choose|k: int| 0 <= k < stack0.len() && stack0[k] == ch;
                                    if k < stack0.len() - 1 {
                                        assert(stack@[k] == ch);
                                    }
                                }
                            }
                        }
                    } else {
                        proof {
                            lemma_fresh_fits(self, res@, at);
                        }
                        res.push(at);
                        let node = self.get(at);
                        let n = node.children.len();
                        let ghost base = stack@;
                        let mut c: usize = n;
                        while c > 0
                            invariant
                                self.wf(),
                                self.contains(at),
                                *node == self.node(at),
                                n == node.children@.len(),
                                c <= n,
                                stack@.len() == base.len() + (n - c),
                                forall|j: int| 0 <= j < base.len() ==> stack@[j] == base[j],
                                forall|t: int|
                                    0 <= t < n - c ==> #[trigger] stack@[base.len() + t] == node.children@[n
                                        - 1 - t],
                            decreases c,
                        {
                            c = c - 1;
                            stack.push(node.children[c]);
                        }
                        proof {
                            let cs = self.node(at).children_of();
                            assert(node.children@ == cs);
                            assert(base == stack0.drop_last());
                            assert forall|k: int| 0 <= k < cs.len() implies stack@.contains(#[trigger] cs[k]) by {
                                let t = n - 1 - k;
                                assert(stack@[base.len() + t] == cs[k]);
                            }
                            assert forall|j: int| 0 <= j < stack@.len() implies self.contains(#[trigger] stack@[j])
                                && self.parent_in(stack@[j], res@) by {
                                if j < base.len() {
                                    assert(stack@[j] == base[j]);
                                    assert(stack@[j] == stack0[j]);
                                    if res0.len() > 0 {
                                        let p = self.node(stack0[j]).parent_of()->0;
                                        assert(res0.contains(p));
                                        let q = choose|q: int| 0 <= q < res0.len() && res0[q] == p;
                                        assert(res@[q] == p);
                                    } else {
                                        assert(stack0 == seq![point]);
                                        assert(false);
                                    }
                                } else {
                                    let t = j - base.len();
                                    let ch = cs[n - 1 - t];
                                    assert(stack@[base.len() + t] == node.children@[n - 1 - t]);
                                    assert(stack@[j] == ch);
                                    assert(res@[res@.len() - 1] == at);
                                }
                            }
                            assert forall|j: int, c2: int|
                                0 <= j < res@.len() && 0 <= c2 < self.node(res@[j]).children_of().len()
                                    implies res@.contains(#[trigger] self.node(#[trigger] res@[j]).children_of()[c2])
                                    || stack@.contains(self.node(res@[j]).children_of()[c2]) by {
                                let ch = self.node(res@[j]).children_of()[c2];
                                if j < res0.len() {
                                    assert(res@[j] == res0[j]);
                                    if res0.contains(ch) {
                                        let q = choose|q: int| 0 <= q < res0.len() && res0[q] == ch;
                                        assert(res@[q] == ch);
                                    } else if ch == at {
                                        assert(res@[res@.len() - 1] == ch);
                                    } else {
                                        assert(stack0.contains(ch));
                                        let k = choose|k: int| 0 <= k < stack0.len() && stack0[k] == ch;
                                        assert(k < stack0.len() - 1);
                                        assert(base[k] == ch);
                                        assert(stack@[k] == base[k]);
                                    }
                                } else {
                                    assert(res@[j] == at);
                                }
                            }
                            if res0.len() > 0 {
                                let j = res0.len() as int;
                                let p = self.node(at).parent_of()->0;
                                assert(stack0[stack0.len() - 1] == at);
                                assert(res0.contains(p));
                                assert(res@.take(j) =~= res0);
                            }
                            assert forall|j: int| 0 < j < res@.len() implies self.parent_in(#[trigger] res@[j], res@.take(j)) by {
                                if j < res0.len() {
                                    assert(res@.take(j) =~= res0.take(j));
                                }
                            }
                        }
                    }
                },
            }
        }
        res
    }
}

/// A node not yet listed can be listed without passing the number of nodes.
proof fn lemma_fresh_fits(t: &EditorTree, listed: Seq<EditorIndex>, at: EditorIndex)
    requires
        t.wf(),
        t.contains(at),
        listed.no_duplicates(),
        !listed.contains(at),
        forall|j: int| 0 <= j < listed.len() ==> t.contains(#[trigger] listed[j]),
    ensures
        listed.len() < t.nodes().dom().len(),
{
    let bits = listed.push(at).map_values(|i: EditorIndex| i.0);
    assert forall|a: int, b: int| 0 <= a < bits.len() && 0 <= b < bits.len() && a != b implies bits[a]
        != bits[b] by {
        let la = listed.push(at)[a];
        let lb = listed.push(at)[b];
        if a < listed.len() && b < listed.len() {
        } else if a == listed.len() {
            assert(lb != at);
        } else {
            assert(la != at);
        }
    }
    bits.unique_seq_to_set();
    assert(bits.to_set().subset_of(t.nodes().dom())) by {
        assert forall|x: u64| bits.to_set().contains(x) implies t.nodes().dom().contains(x) by {
            let k = choose|k: int| 0 <= k < bits.len() && bits[k] == x;
            if k < listed.len() {
                assert(t.contains(listed[k]));
            }
        }
    }
    vstd::set_lib::lemma_len_subset(bits.to_set(), t.nodes().dom());
}

/// Whether `v` holds `x`.
pub(crate) fn contains_index(v: &Vec<EditorIndex>, x: EditorIndex) -> (res: bool)
    ensures
        res == v@.contains(x),
{
    let mut i: usize = 0;
    while i < v.len()
        invariant
            i <= v@.len(),
            forall|j: int| 0 <= j < i ==> v@[j] != x,
        decreases v.len() - i,
    {
        if v[i] == x {
            return true;
        }
        i = i + 1;
    }
    false
}

/// `s` without the occurrences of `x`.
pub open spec fn without(s: Seq<EditorIndex>, x: EditorIndex) -> Seq<EditorIndex> {
    s.filter(|c: EditorIndex| c != x)
}

/// Filtering out a value keeps a sequence free of duplicates.
proof fn lemma_filter_out_no_dup(s: Seq<EditorIndex>, x: EditorIndex)
    requires
        s.no_duplicates(),
    ensures
        without(s, x).no_duplicates(),
    decreases s.len(),
{
    reveal_with_fuel(Seq::filter, 1);
    if s.len() > 0 {
        lemma_filter_out_no_dup(s.drop_last(), x);
        let f = without(s.drop_last(), x);
        if s.last() != x {
            assert(!f.contains(s.last())) by {
                if f.contains(s.last()) {
                    lemma_filter_member(s.drop_last(), x, f.index_of(s.last()));
                }
            }
        }
    }
}

/// Filtering out `x` keeps every other member.
proof fn lemma_filter_keeps(s: Seq<EditorIndex>, x: EditorIndex, y: EditorIndex)
    requires
        s.contains(y),
        y != x,
    ensures
        without(s, x).contains(y),
    decreases s.len(),
{
    reveal_with_fuel(Seq::filter, 1);
    if s.last() != y {
        let j = choose|j: int| 0 <= j < s.len() && s[j] == y;
        assert(s.drop_last()[j] == y);
        lemma_filter_keeps(s.drop_last(), x, y);
    }
}

/// A member of the filtered sequence is a member of the sequence.
proof fn lemma_filter_member(s: Seq<EditorIndex>, x: EditorIndex, j: int)
    requires
        0 <= j < without(s, x).len(),
    ensures
        s.contains(without(s, x)[j]),
    decreases s.len(),
{
    reveal_with_fuel(Seq::filter, 1);
    let f = without(s.drop_last(), x);
    if j < f.len() {
        lemma_filter_member(s.drop_last(), x, j);
        let k = choose|k: int| 0 <= k < s.drop_last().len() && s.drop_last()[k] == f[j];
        assert(s[k] == f[j]);
    } else {
        assert(s[s.len() - 1] == s.last());
    }
}

/// Filtering out a value a sequence does not hold changes nothing.
proof fn lemma_filter_absent(s: Seq<EditorIndex>, x: EditorIndex)
    requires
        !s.contains(x),
    ensures
        without(s, x) == s,
    decreases s.len(),
{
    reveal_with_fuel(Seq::filter, 1);
    if s.len() > 0 {
        assert(!s.drop_last().contains(x)) by {
            if s.drop_last().contains(x) {
                let k = choose|k: int| 0 <= k < s.drop_last().len() && s.drop_last()[k] == x;
                assert(s[k] == x);
            }
        }
        lemma_filter_absent(s.drop_last(), x);
        assert(s.last() != x);
        assert(s.drop_last().push(s.last()) =~= s);
    }
}

/// Adding a child editor and removing it again gives back the tree: the
/// same nodes with the same editors, parents and children, and the removal
/// hands back the added editor.
pub proof fn law_add_then_remove_restores(
    t0: EditorTree,
    index: EditorIndex,
    editor: ManagedEditor,
    added: EditorIndex,
    t1: EditorTree,
    out: Option<ManagedEditor>,
    t2: EditorTree,
)
    requires
        t0.wf(),
        t0.contains(index),
        EditorTree::added_child(t0, index, editor, added, t1),
        EditorTree::removed_leaf(t1, added, out, t2),
    ensures
        out == Some(editor),
        t2.nodes().dom() == t0.nodes().dom(),
        forall|n: u64|
            #[trigger] t0.nodes().dom().contains(n) ==> t2.nodes()[n].children_of() == t0.nodes()[n].children_of()
                && t2.nodes()[n].parent_of() == t0.nodes()[n].parent_of() && t2.nodes()[n].editor_of()
                == t0.nodes()[n].editor_of(),
{
    assert(t1.contains(added));
    assert(t2.nodes().dom() =~= t0.nodes().dom());
    let cs = t0.node(index).children_of();
    assert(!cs.contains(added)) by {
        if cs.contains(added) {
            let k = choose|k: int| 0 <= k < cs.len() && cs[k] == added;
            assert(t0.contains(cs[k]));
        }
    }
    lemma_filter_absent(cs, added);
    assert(without(cs.push(added), added) == cs) by {
        reveal_with_fuel(Seq::filter, 1);
        assert(cs.push(added).drop_last() =~= cs);
    }
}

} // verus!
