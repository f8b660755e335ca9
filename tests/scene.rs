use embroidery_engine::scene_tree::{
    NodeKindTag, SceneTree, TreeCommand, TreeError, TreeNodeKind,
};
use embroidery_engine::sequencer::ShapeSequencerMeta;

fn layer() -> NodeKindTag {
    NodeKindTag::Layer { visible: true, locked: false }
}

#[test]
fn tree_add_and_children_order() {
    let mut t = SceneTree::new();
    let l = t.add_node(layer(), None).unwrap();
    let a = t.add_node(NodeKindTag::Shape, Some(l)).unwrap();
    let b = t.add_node(NodeKindTag::Group, Some(l)).unwrap();
    assert_eq!((l, a, b), (1, 2, 3));
    assert_eq!(t.children(l), vec![a, b]);
    assert_eq!(t.root_children(), &vec![l]);
    assert_eq!(t.parent(a), Some(l));
    assert!(t.shape_meta(a).is_some());
    assert!(t.shape_meta(b).is_none());
    assert_eq!(t.add_node(NodeKindTag::Group, Some(99)), Err(TreeError::MissingParent(99)));
    assert_eq!(t.add_node_with_id(a, NodeKindTag::Group, None, None), Err(TreeError::IdInUse(a)));
}

#[test]
fn tree_move_into_own_subtree_fails_and_changes_nothing() {
    let mut t = SceneTree::new();
    let g = t.add_node(NodeKindTag::Group, None).unwrap();
    let h = t.add_node(NodeKindTag::Group, Some(g)).unwrap();
    let s = t.add_node(NodeKindTag::Shape, Some(h)).unwrap();
    assert_eq!(t.move_node(g, Some(s), None), Err(TreeError::IntoOwnSubtree));
    assert_eq!(t.move_node(g, Some(g), None), Err(TreeError::IntoOwnSubtree));
    assert_eq!(t.children(g), vec![h]);
    assert_eq!(t.children(h), vec![s]);
    assert_eq!(t.parent(g), None);
    assert!(t.is_in_subtree(s, g));
    assert!(!t.is_in_subtree(g, s));
    assert_eq!(t.move_node(s, None, Some(0)), Ok(()));
    assert_eq!(t.root_children(), &vec![s, g]);
    assert_eq!(t.children(h), Vec::<u64>::new());
    assert_eq!(t.parent(s), None);
}

#[test]
fn tree_reorder_and_remove_leaf() {
    let mut t = SceneTree::new();
    let g = t.add_node(NodeKindTag::Group, None).unwrap();
    let a = t.add_node(NodeKindTag::Shape, Some(g)).unwrap();
    let b = t.add_node(NodeKindTag::Shape, Some(g)).unwrap();
    let c = t.add_node(NodeKindTag::Shape, Some(g)).unwrap();
    t.reorder_child(c, 0).unwrap();
    assert_eq!(t.children(g), vec![c, a, b]);
    t.reorder_child(c, 10).unwrap();
    assert_eq!(t.children(g), vec![a, b, c]);
    assert_eq!(t.remove_leaf(g), Err(TreeError::HasChildren(g)));
    t.remove_leaf(b).unwrap();
    assert_eq!(t.children(g), vec![a, c]);
    assert!(!t.contains(b));
    assert!(t.shape_meta(b).is_none());
    assert_eq!(t.position(c), Some((Some(g), 1)));
}

#[test]
fn tree_commands_undo() {
    let mut t = SceneTree::new();
    let g = t.add_node(NodeKindTag::Group, None).unwrap();
    let a = t.add_node(NodeKindTag::Shape, None).unwrap();
    let (old_parent, old_index) = t.position(a).unwrap();
    let mv = TreeCommand::Move { id: a, old_parent, old_index, new_parent: Some(g), new_index: None };
    t.apply_command(&mv, false).unwrap();
    assert_eq!(t.children(g), vec![a]);
    assert_eq!(t.root_children(), &vec![g]);
    t.apply_command(&mv, true).unwrap();
    assert_eq!(t.root_children(), &vec![g, a]);
    assert_eq!(t.children(g), Vec::<u64>::new());

    let add = TreeCommand::Add { id: 10, kind: NodeKindTag::Shape, parent: Some(g), meta: Some(ShapeSequencerMeta::with_index(4)) };
    t.apply_command(&add, false).unwrap();
    assert_eq!(t.shape_meta(10).unwrap().sequencer_index, 4);
    t.apply_command(&add, true).unwrap();
    assert!(!t.contains(10));
    assert_eq!(t.children(g), Vec::<u64>::new());

    let set = TreeCommand::SetMeta { id: a, before: t.shape_meta(a).unwrap(), after: ShapeSequencerMeta::with_index(9) };
    t.apply_command(&set, false).unwrap();
    assert_eq!(t.shape_meta(a).unwrap().sequencer_index, 9);
    t.apply_command(&set, true).unwrap();
    assert_ne!(t.shape_meta(a).unwrap().sequencer_index, 9);
    assert_eq!(t.apply_command(&TreeCommand::SetMeta { id: g, before: ShapeSequencerMeta::with_index(1), after: ShapeSequencerMeta::with_index(2) }, false), Err(TreeError::NotAShape(g)));
}

#[test]
fn tree_kind_change_moves_metadata() {
    let mut t = SceneTree::new();
    let n = t.add_node(NodeKindTag::Group, None).unwrap();
    assert!(t.shape_meta(n).is_none());
    t.set_kind(n, NodeKindTag::Shape, None).unwrap();
    assert!(t.shape_meta(n).is_some());
    assert_eq!(t.kind(n), Some(NodeKindTag::Shape));
    t.set_kind(n, NodeKindTag::Group, None).unwrap();
    assert!(t.shape_meta(n).is_none());
    assert_eq!(TreeNodeKind::of_tag(layer()), TreeNodeKind::Layer { visible: true, locked: false });
}
