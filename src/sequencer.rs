//! Routing options that are plain choices, per-shape sequencer metadata, and
//! the sequencer ordering of shapes, which is kept apart from the visual tree.
use vstd::prelude::*;

verus! {

/// Stable identifier of a scene node.
#[derive(Debug, Clone, Copy, PartialEq, Eq, Hash, Structural)]
pub struct NodeId(pub u64);

/// Stitch routing policy for block ordering and travel handling.
#[derive(Debug, Clone, Copy, PartialEq, Eq, Structural)]
pub enum RoutingPolicy {
    Balanced,
    MinTravel,
    MinTrims,
}

/// Entry/exit strategy for individual stitch blocks.
#[derive(Debug, Clone, Copy, PartialEq, Eq, Structural)]
pub enum EntryExitMode {
    Auto,
    PreserveShapeStart,
    UserAnchor,
}

/// Tie stitch insertion mode.
#[derive(Debug, Clone, Copy, PartialEq, Eq, Structural)]
pub enum TieMode {
    Off,
    ShapeStartEnd,
    ColorChange,
}

/// Block sequencing mode for export routing.
#[derive(Debug, Clone, Copy, PartialEq, Eq, Structural)]
pub enum SequenceMode {
    /// Keep the sequencer order; optimize only each block's orientation.
    StrictSequencer,
    /// Allow global reordering by routing policy.
    Optimizer,
}

/// Editable routing overrides for a single stitch object.
#[derive(Debug, Clone, Copy, PartialEq, Eq, Structural)]
pub struct ObjectRoutingOverrides {
    pub allow_reverse: Option<bool>,
    pub entry_exit_mode: Option<EntryExitMode>,
    pub tie_mode: Option<TieMode>,
}

/// Per-shape metadata used by sequencer-first export routing.
#[derive(Debug, Clone, Copy, PartialEq, Eq, Structural)]
pub struct ShapeSequencerMeta {
    pub sequencer_index: u64,
    pub allow_reverse_override: Option<bool>,
    pub entry_exit_override: Option<EntryExitMode>,
    pub tie_mode_override: Option<TieMode>,
}

impl ShapeSequencerMeta {
    /// Metadata at a sequencer position, with no overrides.
    pub fn with_index(sequencer_index: u64) -> (m: Self)
        ensures
            m.sequencer_index == sequencer_index,
            m.allow_reverse_override is None,
            m.entry_exit_override is None,
            m.tie_mode_override is None,
    {
        ShapeSequencerMeta {
            sequencer_index,
            allow_reverse_override: None,
            entry_exit_override: None,
            tie_mode_override: None,
        }
    }

    /// The routing overrides this metadata carries.
    pub fn overrides(&self) -> (o: ObjectRoutingOverrides)
        ensures
            o.allow_reverse == self.allow_reverse_override,
            o.entry_exit_mode == self.entry_exit_override,
            o.tie_mode == self.tie_mode_override,
    {
        ObjectRoutingOverrides {
            allow_reverse: self.allow_reverse_override,
            entry_exit_mode: self.entry_exit_override,
            tie_mode: self.tie_mode_override,
        }
    }
}

/// Ordered stitch block execution track.
pub struct SequenceTrack {
    pub ordered_block_ids: Vec<NodeId>,
}

/// Where `id` stands in `order`, if it is there.
pub fn position_of(order: &Vec<NodeId>, id: NodeId) -> (r: Option<usize>)
    ensures
        r matches Some(i) ==> i < order@.len() && order@[i as int] == id && forall|j: int|
            0 <= j < i ==> order@[j] != id,
        r is None ==> forall|j: int| 0 <= j < order@.len() ==> order@[j] != id,
{
    let mut i: usize = 0;
    while i < order.len()
        invariant
            i <= order@.len(),
            forall|j: int| 0 <= j < i ==> order@[j] != id,
        decreases order@.len() - i,
    {
        if order[i] == id {
            return Some(i);
        }
        i = i + 1;
    }
    None
}

/// The order after moving `id` to `new_index` (clamped to the last place).
pub open spec fn reordered(order: Seq<NodeId>, id: NodeId, from: int, new_index: int) -> Seq<NodeId> {
    let rest = order.remove(from);
    let target = if new_index > rest.len() {
        rest.len() as int
    } else {
        new_index
    };
    rest.insert(target, id)
}

/// Moves `id` within an order (the sequencer order, or a node's children) to
/// `new_index`, clamped to the end; `None` when `id` is not in the order.
pub fn reorder_sequence(order: &Vec<NodeId>, id: NodeId, new_index: usize) -> (r: Option<Vec<NodeId>>)
    ensures
        r is None <==> forall|j: int| 0 <= j < order@.len() ==> order@[j] != id,
        r matches Some(v) ==> exists|from: int|
            0 <= from < order@.len() && order@[from] == id && (forall|j: int|
                0 <= j < from ==> order@[j] != id) && v@ == reordered(
                order@,
                id,
                from,
                new_index as int,
            ),
{
    match position_of(order, id) {
        None => None,
        Some(current) => {
            let mut ordered = order.clone();
            assert(ordered@ == order@);
            ordered.remove(current);
            let target = if new_index > ordered.len() {
                ordered.len()
            } else {
                new_index
            };
            ordered.insert(target, id);
            assert(ordered@ == reordered(order@, id, current as int, new_index as int));
            Some(ordered)
        },
    }
}

/// Dense sequencer indices for an order: position `i` gets `i + 1`.
pub fn sequencer_indices(order: &Vec<NodeId>) -> (r: Vec<(NodeId, u64)>)
    requires
        order@.len() < u64::MAX,
    ensures
        r@ == dense_indices(order@),
{
    let mut r: Vec<(NodeId, u64)> = Vec::new();
    let mut i: usize = 0;
    while i < order.len()
        invariant
            i <= order@.len(),
            order@.len() < u64::MAX,
            r@.len() == i,
            forall|k: int| 0 <= k < i ==> (#[trigger] r@[k]) == (order@[k], (k + 1) as u64),
        decreases order@.len() - i,
    {
        r.push((order[i], (i + 1) as u64));
        i = i + 1;
    }
    assert(r@ =~= dense_indices(order@));
    r
}


/// The sequencer index of each position of an order: position `i` holds `i + 1`.
pub open spec fn dense_indices(order: Seq<NodeId>) -> Seq<(NodeId, u64)> {
    Seq::new(order.len(), |i: int| (order[i], (i + 1) as u64))
}

/// Whether some position holds sequencer index `k`.
pub open spec fn index_held(d: Seq<(NodeId, u64)>, k: int) -> bool {
    exists|i: int| 0 <= i < d.len() && (#[trigger] d[i]).1 == k
}

/// After a shape is moved within the sequencer order, the order holds the
/// same shapes, and their sequencer indices form a permutation of `1..=N`:
/// every index in that range is held, by one shape each.
pub proof fn lemma_reorder_dense(order: Seq<NodeId>, id: NodeId, from: int, new_index: int)
    requires
        0 <= from < order.len(),
        order[from] == id,
        0 <= new_index,
        order.len() < u64::MAX,
    ensures
        reordered(order, id, from, new_index).to_multiset() == order.to_multiset(),
        dense_indices(reordered(order, id, from, new_index)).len() == order.len(),
        forall|i: int|
            0 <= i < order.len() ==> 1 <= (#[trigger] dense_indices(
                reordered(order, id, from, new_index),
            )[i]).1 <= order.len(),
        forall|k: int|
            1 <= k <= order.len() ==> #[trigger] index_held(
                dense_indices(reordered(order, id, from, new_index)),
                k,
            ),
        forall|i: int, j: int|
            0 <= i < j < order.len() ==> (#[trigger] dense_indices(
                reordered(order, id, from, new_index),
            )[i]).1 != (#[trigger] dense_indices(reordered(order, id, from, new_index))[j]).1,
{
    broadcast use vstd::multiset::group_multiset_axioms;

    let rest = order.remove(from);
    let target = if new_index > rest.len() {
        rest.len() as int
    } else {
        new_index
    };
    vstd::seq_lib::to_multiset_remove(order, from);
    vstd::seq_lib::to_multiset_insert(rest, target, id);
    assert(order.to_multiset().contains(id)) by {
        vstd::seq_lib::to_multiset_contains(order, id);
        assert(order.contains(id)) by {
            assert(order[from] == id);
        }
    }
    assert(order.to_multiset().remove(id).insert(id) =~= order.to_multiset());
    let r = reordered(order, id, from, new_index);
    let d = dense_indices(r);
    assert forall|k: int| 1 <= k <= order.len() implies #[trigger] index_held(d, k) by {
        assert(d[k - 1].1 == k);
    }
}


/// The sort key of a shape: its sequencer index (unplaced shapes last), then its id.
pub open spec fn key_le(a: (u64, NodeId), b: (u64, NodeId)) -> bool {
    a.0 < b.0 || (a.0 == b.0 && a.1.0 <= b.1.0)
}

pub open spec fn sorted_by_key(s: Seq<(u64, NodeId)>) -> bool {
    forall|i: int, j: int| 0 <= i < j < s.len() ==> key_le(#[trigger] s[i], #[trigger] s[j])
}

/// The shape ids of an ordering, in order.
pub open spec fn ids_of(s: Seq<(u64, NodeId)>) -> Seq<NodeId> {
    s.map_values(|e: (u64, NodeId)| e.1)
}

/// Sorts shapes into sequencer order: by sequencer index, then by id.
pub fn sort_by_sequencer_key(entries: &Vec<(u64, NodeId)>) -> (r: Vec<(u64, NodeId)>)
    ensures
        sorted_by_key(r@),
        r@.to_multiset() == entries@.to_multiset(),
        r@.len() == entries@.len(),
{
    broadcast use vstd::multiset::group_multiset_axioms;

    let mut r: Vec<(u64, NodeId)> = Vec::new();
    let mut i: usize = 0;
    assert(entries@.subrange(0, 0) =~= r@);
    while i < entries.len()
        invariant
            i <= entries@.len(),
            sorted_by_key(r@),
            r@.to_multiset() == entries@.subrange(0, i as int).to_multiset(),
            r@.len() == i,
        decreases entries@.len() - i,
    {
        let e = entries[i];
        let mut pos: usize = 0;
        while pos < r.len() && key_le_exec(r[pos], e)
            invariant
                pos <= r@.len(),
                forall|k: int| 0 <= k < pos ==> key_le(#[trigger] r@[k], e),
            decreases r@.len() - pos,
        {
            pos = pos + 1;
        }
        proof {
            vstd::seq_lib::to_multiset_insert(r@, pos as int, e);
            assert(entries@.subrange(0, i + 1) =~= entries@.subrange(0, i as int).push(e));
            vstd::seq_lib::to_multiset_build(entries@.subrange(0, i as int), e);
        }
        let ghost before = r@;
        r.insert(pos, e);
        assert(r@ == before.insert(pos as int, e));
        assert forall|a: int, b: int| 0 <= a < b < r@.len() implies key_le(
            #[trigger] r@[a],
            #[trigger] r@[b],
        ) by {
            if b < pos {
                assert(r@[a] == before[a] && r@[b] == before[b]);
            } else if b == pos {
                assert(r@[a] == before[a]);
            } else if a < pos {
                assert(r@[a] == before[a] && r@[b] == before[b - 1]);
            } else if a == pos {
                assert(r@[b] == before[b - 1]);
                assert(pos < before.len());
                assert(!key_le(before[pos as int], e));
                if b - 1 > pos {
                    assert(key_le(before[pos as int], before[b - 1]));
                }
            } else {
                assert(r@[a] == before[a - 1] && r@[b] == before[b - 1]);
            }
        }
        i = i + 1;
    }
    assert(entries@.subrange(0, i as int) =~= entries@);
    r
}

fn key_le_exec(a: (u64, NodeId), b: (u64, NodeId)) -> (r: bool)
    ensures
        r == key_le(a, b),
{
    a.0 < b.0 || (a.0 == b.0 && a.1.0 <= b.1.0)
}

/// The shape ids in sequencer order: by sequencer index, unplaced shapes
/// (`None`) last, then by id.
pub fn sequencer_order(shapes: &Vec<(NodeId, Option<u64>)>) -> (r: Vec<NodeId>)
    ensures
        exists|sorted: Seq<(u64, NodeId)>|
            #![trigger ids_of(sorted)]
            sorted_by_key(sorted) && r@ == ids_of(sorted) && sorted.to_multiset() == shapes@.map_values(
                |e: (NodeId, Option<u64>)|
                    (
                        match e.1 {
                            Some(k) => k,
                            None => u64::MAX,
                        },
                        e.0,
                    ),
            ).to_multiset(),
{
    let mut keyed: Vec<(u64, NodeId)> = Vec::new();
    let mut i: usize = 0;
    let ghost keys = shapes@.map_values(
        |e: (NodeId, Option<u64>)|
            (
                match e.1 {
                    Some(k) => k,
                    None => u64::MAX,
                },
                e.0,
            ),
    );
    while i < shapes.len()
        invariant
            i <= shapes@.len(),
            keys == shapes@.map_values(
                |e: (NodeId, Option<u64>)|
                    (
                        match e.1 {
                            Some(k) => k,
                            None => u64::MAX,
                        },
                        e.0,
                    ),
            ),
            keyed@ == keys.subrange(0, i as int),
        decreases shapes@.len() - i,
    {
        let (id, index) = shapes[i];
        let k: u64 = match index {
            Some(k) => k,
            None => u64::MAX,
        };
        keyed.push((k, id));
        assert(keys.subrange(0, i + 1) =~= keys.subrange(0, i as int).push((k, id)));
        i = i + 1;
    }
    assert(keys.subrange(0, i as int) =~= keys);
    let sorted = sort_by_sequencer_key(&keyed);
    let mut r: Vec<NodeId> = Vec::new();
    let mut j: usize = 0;
    while j < sorted.len()
        invariant
            j <= sorted@.len(),
            r@ == ids_of(sorted@).subrange(0, j as int),
        decreases sorted@.len() - j,
    {
        r.push(sorted[j].1);
        assert(ids_of(sorted@).subrange(0, j + 1) =~= ids_of(sorted@).subrange(0, j as int).push(
            sorted@[j as int].1,
        ));
        j = j + 1;
    }
    assert(ids_of(sorted@).subrange(0, j as int) =~= ids_of(sorted@));
    r
}

} // verus!
