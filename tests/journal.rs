use embroidery_engine::buckets::color_buckets;
use embroidery_engine::design::Color;
use embroidery_engine::history::CommandHistory;
use embroidery_engine::sequencer::{
    reorder_sequence, sequencer_indices, sequencer_order, NodeId, ShapeSequencerMeta,
};

#[test]
fn history_undo_then_redo_restores_stacks() {
    let mut h: CommandHistory<u32> = CommandHistory::new(10);
    h.record(1);
    h.record(2);
    assert_eq!(h.next_undo(), Some(&2));
    assert!(h.commit_undo());
    assert_eq!(h.undo_count(), 1);
    assert_eq!(h.redo_count(), 1);
    assert_eq!(h.next_redo(), Some(&2));
    assert!(h.commit_redo());
    assert_eq!(h.undo_count(), 2);
    assert_eq!(h.redo_count(), 0);
    assert_eq!(h.next_undo(), Some(&2));
}

#[test]
fn history_new_command_clears_redo() {
    let mut h: CommandHistory<u32> = CommandHistory::new(10);
    h.record(1);
    assert!(h.commit_undo());
    assert_eq!(h.redo_count(), 1);
    h.record(3);
    assert_eq!(h.redo_count(), 0);
    assert_eq!(h.next_redo(), None);
}

#[test]
fn history_empty_undo_and_redo_do_nothing() {
    let mut h: CommandHistory<u32> = CommandHistory::new(10);
    assert!(!h.commit_undo());
    assert!(!h.commit_redo());
    assert_eq!(h.next_undo(), None);
}

#[test]
fn history_cap_drops_oldest() {
    let mut h: CommandHistory<u32> = CommandHistory::new(3);
    for c in 1..=5 {
        h.record(c);
    }
    assert_eq!(h.undo_count(), 3);
    let mut undone = Vec::new();
    while let Some(c) = h.next_undo().copied() {
        undone.push(c);
        h.commit_undo();
    }
    assert_eq!(undone, vec![5, 4, 3]);
    h.clear();
    assert_eq!(h.undo_count() + h.redo_count(), 0);
}

#[test]
fn sequencer_reorder_moves_and_clamps() {
    let order = vec![NodeId(1), NodeId(2), NodeId(3)];
    assert_eq!(reorder_sequence(&order, NodeId(3), 0), Some(vec![NodeId(3), NodeId(1), NodeId(2)]));
    assert_eq!(reorder_sequence(&order, NodeId(1), 99), Some(vec![NodeId(2), NodeId(3), NodeId(1)]));
    assert_eq!(reorder_sequence(&order, NodeId(9), 0), None);
}

#[test]
fn sequencer_indices_are_dense() {
    let order = reorder_sequence(&vec![NodeId(4), NodeId(8), NodeId(6)], NodeId(6), 1).unwrap();
    let idx = sequencer_indices(&order);
    assert_eq!(idx, vec![(NodeId(4), 1), (NodeId(6), 2), (NodeId(8), 3)]);
    let meta = ShapeSequencerMeta::with_index(7);
    assert_eq!(meta.sequencer_index, 7);
    assert_eq!(meta.overrides().tie_mode, None);
}

#[test]
fn sequencer_order_sorts_by_index_then_id_with_unplaced_last() {
    let shapes = vec![
        (NodeId(9), None),
        (NodeId(5), Some(2)),
        (NodeId(3), Some(2)),
        (NodeId(7), Some(1)),
        (NodeId(1), None),
    ];
    assert_eq!(
        sequencer_order(&shapes),
        vec![NodeId(7), NodeId(3), NodeId(5), NodeId(1), NodeId(9)]
    );
    assert_eq!(sequencer_order(&vec![]), Vec::<NodeId>::new());
}

#[test]
fn color_buckets_follow_first_seen_order() {
    let red = Color::new(255, 0, 0, 255);
    let blue = Color::new(0, 0, 255, 255);
    let green = Color::new(0, 255, 0, 255);
    let (firsts, ids) = color_buckets(&vec![blue, red, blue, green, red]);
    assert_eq!(firsts, vec![blue, red, green]);
    assert_eq!(ids, vec![0, 1, 0, 2, 1]);
    let (firsts, ids) = color_buckets(&vec![]);
    assert!(firsts.is_empty() && ids.is_empty());
}
