use modal_logic::kinds::UpdateResult;
use modal_logic::editor::{plan_inputs, GraphEditor, GraphResponse};
use modal_logic::remote::{ExternInput, OutputPort, RtRequest, RuntimeRemote};
use modal_logic::tree::{EditorTree, ManagedEditor};

const GEN: u64 = 1 << 32;

fn editor(name: &str, handle: u64) -> ManagedEditor {
    ManagedEditor::new(name.to_string(), handle)
}

#[test]
fn tree_starts_with_the_main_editor() {
    let tree = EditorTree::new(editor("main", 0));
    let root = tree.root();
    assert_eq!(tree.get(root).editor.name, "main");
    assert_eq!(tree.get(root).parent(), None);
    assert!(tree.get(root).children().is_empty());
    assert_eq!(tree.indices(), vec![root]);
}

#[test]
fn tree_insert_links_parent_and_child() {
    let mut tree = EditorTree::new(editor("main", 0));
    let root = tree.root();
    let a = tree.insert(root, editor("a", 1));
    let b = tree.insert(a, editor("b", 2));
    assert_ne!(a, root);
    assert_eq!(tree.get(root).children(), &[a]);
    assert_eq!(tree.get(a).parent(), Some(root));
    assert_eq!(tree.get(a).children(), &[b]);
    assert_eq!(tree.get(b).parent(), Some(a));
    assert_eq!(tree.get(b).editor.handle, 2);
    let mut all = tree.indices();
    all.sort_by_key(|i| i.0);
    let mut expected = vec![root, a, b];
    expected.sort_by_key(|i| i.0);
    assert_eq!(all, expected);
}

#[test]
fn tree_traversal_visits_parents_first() {
    let mut tree = EditorTree::new(editor("main", 0));
    let root = tree.root();
    let a = tree.insert(root, editor("a", 1));
    let b = tree.insert(root, editor("b", 2));
    let c = tree.insert(a, editor("c", 3));
    let order = tree.traverse_from(root);
    assert_eq!(order.len(), 4);
    assert_eq!(order[0], root);
    let pos = |i| order.iter().position(|x| *x == i).unwrap();
    assert!(pos(a) < pos(c));
    assert!(pos(b) > 0);
    assert_eq!(tree.traverse_from(a), vec![a, c]);
    assert_eq!(tree.traverse_from(b), vec![b]);
}

#[test]
fn tree_add_then_remove_restores() {
    let mut tree = EditorTree::new(editor("main", 0));
    let root = tree.root();
    let a = tree.insert(root, editor("a", 1));
    let b = tree.insert(a, editor("b", 2));
    let removed = tree.remove(b).unwrap();
    assert_eq!(removed.name, "b");
    assert_eq!(removed.handle, 2);
    assert!(tree.get(a).children().is_empty());
    assert_eq!(tree.traverse_from(root), vec![root, a]);
    // Removing it again finds nothing.
    assert!(tree.remove(b).is_none());
}

#[test]
fn remote_lookups_agree() {
    let mut remote = RuntimeRemote::new();
    assert!(!remote.must_wait());
    let req = remote.insert(7, 2);
    match req {
        RtRequest::Insert { id, inputs } => {
            assert_eq!(id, 7);
            assert_eq!(inputs, vec![None, None]);
        }
        other => panic!("unexpected {other:?}"),
    }
    assert!(remote.must_wait());
    assert_eq!(remote.id_to_index(7), None);
    remote.inserted(7, GEN | 3);
    assert_eq!(remote.id_to_index(7), Some(GEN | 3));
    assert_eq!(remote.index_to_id(GEN | 3), Some(7));
    assert_eq!(remote.index_to_id(GEN | 4), None);
    remote.waited();
    assert!(!remote.must_wait());
}

#[test]
fn remote_insert_displaces_old_pairs() {
    let mut remote = RuntimeRemote::new();
    remote.inserted(1, GEN | 1);
    remote.inserted(2, GEN | 1);
    assert_eq!(remote.id_to_index(1), None);
    assert_eq!(remote.index_to_id(GEN | 1), Some(2));
    remote.inserted(2, GEN | 5);
    assert_eq!(remote.index_to_id(GEN | 1), None);
    assert_eq!(remote.mapping_pairs(), vec![(2, GEN | 5)]);
}

#[test]
fn remote_removed_is_gone() {
    let mut remote = RuntimeRemote::new();
    remote.inserted(4, GEN | 9);
    remote.inserted(5, GEN | 10);
    let req = remote.remove(4);
    assert!(matches!(req, RtRequest::Remove(i) if i == (GEN | 9)));
    assert_eq!(remote.id_to_index(4), None);
    assert_eq!(remote.index_to_id(GEN | 9), None);
    assert_eq!(remote.id_to_index(5), Some(GEN | 10));
    assert!(remote.must_wait());
}

#[test]
fn remote_requests_name_runtime_nodes() {
    let mut remote = RuntimeRemote::new();
    remote.inserted(1, GEN | 1);
    remote.inserted(2, GEN | 2);
    let req = remote.connect(1, 0, 2, 1);
    assert!(matches!(
        req,
        RtRequest::SetInput { src: Some(OutputPort { node, port: 0 }), dst, port: 1 }
            if node == (GEN | 1) && dst == (GEN | 2)
    ));
    assert!(matches!(remote.disconnect(2, 0), RtRequest::SetInput { src: None, dst, port: 0 } if dst == (GEN | 2)));
    assert!(matches!(remote.play(Some((2, 0))), RtRequest::Play(Some(OutputPort { node, port: 0 })) if node == (GEN | 2)));
    assert!(matches!(remote.play(Some((3, 0))), RtRequest::Play(None)));
    assert!(matches!(remote.play(None), RtRequest::Play(None)));
    assert!(matches!(remote.record(1, 2), RtRequest::Record(n, 2) if n == (GEN | 1)));
    assert!(matches!(remote.stop_recording(1, 2), RtRequest::StopRecording(n, 2) if n == (GEN | 1)));
    let ins = vec![Some(OutputPort { node: GEN | 1, port: 0 }), None];
    match remote.set_inputs(2, ins.clone()) {
        RtRequest::SetAllInputs { dst, inputs } => {
            assert_eq!(dst, GEN | 2);
            assert_eq!(inputs, ins);
        }
        other => panic!("unexpected {other:?}"),
    }
    assert!(matches!(remote.save_state(), RtRequest::CloneRuntime));
    assert!(remote.must_wait());
    assert!(matches!(remote.shutdown(), RtRequest::Shutdown));
}

#[test]
fn remote_replace_takes_saved_pairs() {
    let mut remote = RuntimeRemote::new();
    remote.inserted(1, GEN | 1);
    let req = remote.replace_runtime(vec![(10, GEN | 20), (11, GEN | 21)]);
    assert!(matches!(req, RtRequest::ReplaceRuntime));
    assert_eq!(remote.id_to_index(1), None);
    assert_eq!(remote.id_to_index(10), Some(GEN | 20));
    assert_eq!(remote.index_to_id(GEN | 21), Some(11));
    let mut pairs = remote.mapping_pairs();
    pairs.sort();
    assert_eq!(pairs, vec![(10, GEN | 20), (11, GEN | 21)]);
}

#[test]
fn extern_input_names() {
    assert_eq!(ExternInput::TrackAudio.name(), "TrackAudio");
    assert_eq!(ExternInput::Midi.name(), "Midi");
}

#[test]
fn graph_editor_forwards_responses() {
    let mut ed = GraphEditor::new(RuntimeRemote::new());
    assert_eq!(ed.rt_playback, None);
    let (req, changed) = ed.respond(GraphResponse::CreatedNode { id: 1, inputs: 1 });
    assert!(matches!(req, Some(RtRequest::Insert { id: 1, .. })));
    assert_eq!(changed, UpdateResult::TopologyChanged);
    ed.remote.inserted(1, GEN | 1);
    ed.respond(GraphResponse::CreatedNode { id: 2, inputs: 2 });
    ed.remote.inserted(2, GEN | 2);
    let (req, changed) = ed.respond(GraphResponse::Connect { src: 1, src_port: 0, dst: 2, dst_port: 1 });
    assert!(matches!(req, Some(RtRequest::SetInput { src: Some(OutputPort { node, port: 0 }), dst, port: 1 })
        if node == (GEN | 1) && dst == (GEN | 2)));
    assert_eq!(changed, UpdateResult::TopologyChanged);
    let (req, changed) = ed.respond(GraphResponse::StartRecording { node: 2, port: 0 });
    assert!(matches!(req, Some(RtRequest::Record(n, 0)) if n == (GEN | 2)));
    assert_eq!(changed, UpdateResult::Unchanged);
    let (req, _) = ed.respond(GraphResponse::SetRtPlayback { node: 2, port: 0 });
    assert!(matches!(req, Some(RtRequest::Play(Some(_)))));
    assert_eq!(ed.rt_playback, Some((2, 0)));
    let (req, _) = ed.respond(GraphResponse::ClearRtPlayback);
    assert!(matches!(req, Some(RtRequest::Play(None))));
    assert_eq!(ed.rt_playback, None);
    let (req, changed) = ed.respond(GraphResponse::UpdateInputType);
    assert!(req.is_none());
    assert_eq!(changed, UpdateResult::TopologyChanged);
    let (req, _) = ed.respond(GraphResponse::DeleteNode { id: 1 });
    assert!(matches!(req, Some(RtRequest::Remove(n)) if n == (GEN | 1)));
    assert_eq!(ed.remote.id_to_index(1), None);
    assert!(matches!(ed.shutdown(), RtRequest::Shutdown));
}

#[test]
fn graph_editor_background_recalc() {
    let mut ed = GraphEditor::new(RuntimeRemote::new());
    ed.remote.inserted(5, GEN | 50);
    ed.remote.inserted(6, GEN | 60);
    let (changed, ids) = ed.update_background(vec![GEN | 60, GEN | 99, GEN | 50]);
    assert_eq!(changed, UpdateResult::TopologyChanged);
    assert_eq!(ids, vec![6, 5]);
    let (changed, ids) = ed.update_background(vec![GEN | 99]);
    assert_eq!(changed, UpdateResult::Unchanged);
    assert!(ids.is_empty());
}

#[test]
fn graph_editor_replace_restores_scopes_and_playback() {
    let mut ed = GraphEditor::new(RuntimeRemote::new());
    let reqs = ed.replace(vec![(3, GEN | 30), (4, GEN | 40)], vec![(4, 1)], Some((3, 0)));
    assert_eq!(reqs.len(), 3);
    assert!(matches!(reqs[0], RtRequest::ReplaceRuntime));
    assert!(matches!(reqs[1], RtRequest::Record(n, 1) if n == (GEN | 40)));
    assert!(matches!(reqs[2], RtRequest::Play(Some(OutputPort { node, port: 0 })) if node == (GEN | 30)));
    assert_eq!(ed.rt_playback, Some((3, 0)));
    assert_eq!(ed.remote.id_to_index(4), Some(GEN | 40));
}

#[test]
fn input_plan_keeps_common_names() {
    let s = |v: &[&str]| v.iter().map(|x| x.to_string()).collect::<Vec<_>>();
    let plan = plan_inputs(&s(&["x", "y", "sig1"]), &s(&["y", "a", "sig1", "sig2"]));
    assert_eq!(plan.remove, vec![0]);
    assert_eq!(plan.add, vec![1, 3]);
    let plan = plan_inputs(&s(&["x"]), &s(&["x"]));
    assert!(plan.remove.is_empty() && plan.add.is_empty());
    let plan = plan_inputs(&Vec::new(), &s(&["f", "shape"]));
    assert_eq!(plan.add, vec![0, 1]);
}

#[test]
fn tree_editor_changes_in_place() {
    let mut tree = EditorTree::new(editor("main", 0));
    let root = tree.root();
    let a = tree.insert(root, editor("a", 1));
    tree.get_mut(a).name = "renamed".to_string();
    tree.get_mut(a).handle = 9;
    assert_eq!(tree.get(a).editor.name, "renamed");
    assert_eq!(tree.get(a).editor.handle, 9);
    assert_eq!(tree.get(a).parent(), Some(root));
    assert_eq!(tree.get(root).children(), &[a]);
    assert_eq!(tree.get(root).editor.name, "main");
}

#[test]
fn rewired_inputs_name_runtime_outputs() {
    let mut ed = GraphEditor::new(RuntimeRemote::new());
    ed.remote.inserted(1, GEN | 1);
    ed.remote.inserted(2, GEN | 2);
    let req = ed.rewire_inputs(2, &vec![Some((1, 3)), None, Some((9, 0))]);
    match req {
        RtRequest::SetAllInputs { dst, inputs } => {
            assert_eq!(dst, GEN | 2);
            assert_eq!(inputs, vec![Some(OutputPort { node: GEN | 1, port: 3 }), None, None]);
        }
        other => panic!("unexpected {other:?}"),
    }
}

#[test]
fn dangling_editors_go_with_their_subtrees() {
    let mut tree = EditorTree::new(editor("main", 0));
    let root = tree.root();
    let a = tree.insert(root, editor("a", 1));
    let b = tree.insert(a, editor("b", 2));
    let c = tree.insert(root, editor("c", 3));
    let active = tree.prune_dangling(b, &vec![a]);
    assert_eq!(active, root);
    assert!(!tree.holds(a) && !tree.holds(b));
    assert!(tree.holds(c));
    assert_eq!(tree.get(root).children(), &[c]);
    // Nothing dangling: the tree and the active editor stay.
    assert_eq!(tree.prune_dangling(c, &Vec::new()), c);
    assert!(tree.holds(c));
}

#[test]
fn nested_dangling_editors_are_removed_once() {
    let mut tree = EditorTree::new(editor("main", 0));
    let root = tree.root();
    let a = tree.insert(root, editor("a", 1));
    let b = tree.insert(a, editor("b", 2));
    let d = tree.insert(b, editor("d", 4));
    let active = tree.prune_dangling(a, &vec![b, a]);
    assert_eq!(active, root);
    assert!(!tree.holds(a) && !tree.holds(b) && !tree.holds(d));
    assert_eq!(tree.indices(), vec![root]);
}

#[test]
fn queued_editors_are_adopted_and_visited() {
    let mut tree = EditorTree::new(editor("main", 0));
    let root = tree.root();
    let a = tree.insert(root, editor("a", 1));
    let active = tree.adopt_editors(root, vec![(a, editor("x", 7)), (root, editor("y", 8))], Some(7));
    assert_eq!(tree.get(active).editor.name, "x");
    assert_eq!(tree.get(active).parent(), Some(a));
    assert_eq!(tree.get(a).children(), &[active]);
    let kids = tree.get(root).children().to_vec();
    assert_eq!(kids.len(), 2);
    assert_eq!(kids[0], a);
    assert_eq!(tree.get(kids[1]).editor.name, "y");
    // An unknown handle leaves the active editor.
    assert_eq!(tree.adopt_editors(a, Vec::new(), Some(99)), a);
    assert_eq!(tree.adopt_editors(a, Vec::new(), None), a);
}

#[test]
fn input_plan_says_where_each_listed_input_comes_from() {
    let s = |v: &[&str]| v.iter().map(|x| x.to_string()).collect::<Vec<_>>();
    let plan = plan_inputs(&s(&["x", "y", "sig1"]), &s(&["y", "a", "sig1", "sig2"]));
    assert_eq!(plan.from, vec![Some(1), None, Some(2), None]);
    let plan = plan_inputs(&s(&["f", "f"]), &s(&["f"]));
    assert_eq!(plan.from, vec![Some(0)]);
}

#[test]
fn frame_updates_all_but_the_active_editor() {
    let mut tree = EditorTree::new(editor("main", 0));
    let root = tree.root();
    let a = tree.insert(root, editor("a", 1));
    let b = tree.insert(a, editor("b", 2));
    let (mut others, flag) = tree.frame_tasks(a, false, UpdateResult::Unchanged);
    others.sort_by_key(|i| i.0);
    let mut expected = vec![root, b];
    expected.sort_by_key(|i| i.0);
    assert_eq!(others, expected);
    assert!(!flag);
    assert!(tree.frame_tasks(a, false, UpdateResult::TopologyChanged).1);
    assert!(tree.frame_tasks(a, true, UpdateResult::Unchanged).1);
}

#[test]
fn frame_result_folds_responses_and_recalcs() {
    let mut ed = GraphEditor::new(RuntimeRemote::new());
    ed.remote.inserted(1, GEN | 1);
    let rec = GraphResponse::StartRecording { node: 1, port: 0 };
    let stop = GraphResponse::StopRecording { node: 1, port: 0 };
    assert_eq!(ed.frame_result(&vec![rec, stop], &vec![GEN | 9]), UpdateResult::Unchanged);
    assert_eq!(ed.frame_result(&vec![rec, GraphResponse::ClearRtPlayback], &Vec::new()), UpdateResult::TopologyChanged);
    assert_eq!(ed.frame_result(&vec![rec], &vec![GEN | 9, GEN | 1]), UpdateResult::TopologyChanged);
    assert_eq!(ed.frame_result(&Vec::new(), &Vec::new()), UpdateResult::Unchanged);
}
