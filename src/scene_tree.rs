//! The structure of the scene graph: which nodes exist, their kind tags,
//! parent links and child order, and the sequencer metadata of shapes. The
//! geometry each node carries is held elsewhere, keyed by id.
use std::collections::HashMap;
use vstd::prelude::*;

use crate::sequencer::ShapeSequencerMeta;

verus! {

broadcast use vstd::std_specs::hash::group_hash_axioms;

/// The kind of a node, as far as the tree is concerned.
#[derive(Debug, Clone, Copy, PartialEq, Eq, Structural)]
pub enum NodeKindTag {
    Layer { visible: bool, locked: bool },
    Group,
    Shape,
}

/// A node's place in the tree.
#[derive(Debug)]
pub struct TreeLink {
    pub parent: Option<u64>,
    pub children: Vec<u64>,
    pub kind: NodeKindTag,
}

/// What a node's place in the tree is, mathematically.
pub struct LinkView {
    pub parent: Option<u64>,
    pub children: Seq<u64>,
    pub kind: NodeKindTag,
}

pub open spec fn link_view(l: TreeLink) -> LinkView {
    LinkView { parent: l.parent, children: l.children@, kind: l.kind }
}

/// The scene tree, mathematically.
pub struct TreeView {
    pub nodes: Map<u64, LinkView>,
    pub roots: Seq<u64>,
    pub meta: Map<u64, ShapeSequencerMeta>,
    pub next_id: u64,
}

pub open spec fn no_dups(s: Seq<u64>) -> bool {
    forall|i: int, j: int| 0 <= i < j < s.len() ==> s[i] != s[j]
}

pub open spec fn is_shape(k: NodeKindTag) -> bool {
    k is Shape
}

/// Parent links and child lists agree, every listed id exists, no list
/// repeats an id, ids are below `next_id`, and exactly the shapes carry
/// sequencer metadata.
pub open spec fn tree_wf(t: TreeView) -> bool {
    &&& forall|x: u64| #[trigger]
        t.nodes.contains_key(x) ==> match t.nodes[x].parent {
            Some(p) => t.nodes.contains_key(p) && t.nodes[p].children.contains(x),
            None => t.roots.contains(x),
        }
    &&& forall|p: u64, c: u64|
        t.nodes.contains_key(p) && #[trigger] t.nodes[p].children.contains(c) ==> t.nodes.contains_key(c)
            && t.nodes[c].parent == Some(p)
    &&& forall|c: u64|
        #[trigger] t.roots.contains(c) ==> t.nodes.contains_key(c) && t.nodes[c].parent is None
    &&& no_dups(t.roots)
    &&& forall|x: u64| #[trigger] t.nodes.contains_key(x) ==> t.nodes[x].parent != Some(x)
    &&& forall|p: u64| #[trigger] t.nodes.contains_key(p) ==> no_dups(t.nodes[p].children)
    &&& forall|x: u64| #[trigger] t.nodes.contains_key(x) ==> x < t.next_id
    &&& forall|x: u64|
        #[trigger] t.meta.contains_key(x) <==> t.nodes.contains_key(x) && is_shape(t.nodes[x].kind)
}

/// The node `k` steps up from `x` along parent links.
pub open spec fn up(t: TreeView, x: u64, k: nat) -> Option<u64>
    decreases k,
{
    if k == 0 {
        Some(x)
    } else {
        match up(t, x, (k - 1) as nat) {
            Some(y) => if t.nodes.contains_key(y) {
                t.nodes[y].parent
            } else {
                None
            },
            None => None,
        }
    }
}

/// Whether `x` is `root` or lies below it: `root` is reached from `x` within
/// as many parent steps as there are nodes.
pub open spec fn in_subtree(t: TreeView, x: u64, root: u64) -> bool {
    exists|k: nat| k <= t.nodes.dom().len() && #[trigger] up(t, x, k) == Some(root)
}

/// The first position of `v` in `s`.
pub open spec fn first_index(s: Seq<u64>, v: u64) -> int {
    choose|i: int| 0 <= i < s.len() && s[i] == v && forall|j: int| 0 <= j < i ==> s[j] != v
}

/// `s` without its first `v`.
pub open spec fn without(s: Seq<u64>, v: u64) -> Seq<u64> {
    if s.contains(v) {
        s.remove(first_index(s, v))
    } else {
        s
    }
}

/// `s` with `v` inserted at `index`, or at the end when there is no index
/// or it is past the end.
pub open spec fn placed(s: Seq<u64>, v: u64, index: Option<usize>) -> Seq<u64> {
    let i = match index {
        Some(i) => if i > s.len() {
            s.len() as int
        } else {
            i as int
        },
        None => s.len() as int,
    };
    s.insert(i, v)
}

/// The tree with `id` taken out of its parent's child list (or the roots).
pub open spec fn detached(t: TreeView, id: u64) -> TreeView {
    match t.nodes[id].parent {
        Some(p) => TreeView {
            nodes: t.nodes.insert(
                p,
                LinkView { children: without(t.nodes[p].children, id), ..t.nodes[p] },
            ),
            ..t
        },
        None => TreeView { roots: without(t.roots, id), ..t },
    }
}

/// The tree with `id` placed under `parent` (or among the roots) and its
/// parent link set.
pub open spec fn attached(t: TreeView, id: u64, parent: Option<u64>, index: Option<usize>) -> TreeView {
    let t1 = match parent {
        Some(p) => TreeView {
            nodes: t.nodes.insert(
                p,
                LinkView { children: placed(t.nodes[p].children, id, index), ..t.nodes[p] },
            ),
            ..t
        },
        None => TreeView { roots: placed(t.roots, id, index), ..t },
    };
    TreeView { nodes: t1.nodes.insert(id, LinkView { parent, ..t1.nodes[id] }), ..t1 }
}

/// The tree after moving `id` under `parent` at `index`.
pub open spec fn moved(t: TreeView, id: u64, parent: Option<u64>, index: Option<usize>) -> TreeView {
    attached(detached(t, id), id, parent, index)
}

proof fn lemma_first_index(s: Seq<u64>, v: u64)
    requires
        s.contains(v),
    ensures
        0 <= first_index(s, v) < s.len(),
        s[first_index(s, v)] == v,
        forall|j: int| 0 <= j < first_index(s, v) ==> s[j] != v,
    decreases s.len(),
{
    let d = s.drop_last();
    if d.contains(v) {
        lemma_first_index(d, v);
        let k = first_index(d, v);
        assert(s[k] == d[k]);
        assert forall|j: int| 0 <= j < k implies s[j] != v by {
            assert(s[j] == d[j]);
        }
        assert(0 <= k < s.len() && s[k] == v && forall|j: int| 0 <= j < k ==> s[j] != v);
    } else {
        let k = s.len() - 1;
        let w = choose|i: int| 0 <= i < s.len() && s[i] == v;
        if w < k {
            assert(d[w] == v);
        }
        assert forall|j: int| 0 <= j < k implies s[j] != v by {
            if s[j] == v {
                assert(d[j] == v);
            }
        }
        assert(0 <= k < s.len() && s[k] == v && forall|j: int| 0 <= j < k ==> s[j] != v);
    }
}

proof fn lemma_without(s: Seq<u64>, v: u64)
    requires
        no_dups(s),
    ensures
        no_dups(without(s, v)),
        forall|x: u64| #[trigger] without(s, v).contains(x) <==> s.contains(x) && x != v,
{
    if s.contains(v) {
        let k = first_index(s, v);
        lemma_first_index(s, v);
        let r = s.remove(k);
        assert forall|x: u64| #[trigger] r.contains(x) <==> s.contains(x) && x != v by {
            if r.contains(x) {
                let i = choose|i: int| 0 <= i < r.len() && r[i] == x;
                if i < k {
                    assert(s[i] == x);
                } else {
                    assert(s[i + 1] == x);
                }
            }
            if s.contains(x) && x != v {
                let i = choose|i: int| 0 <= i < s.len() && s[i] == x;
                if i < k {
                    assert(r[i] == x);
                } else {
                    assert(i != k);
                    assert(r[i - 1] == x);
                }
            }
        }
    }
}

proof fn lemma_placed(s: Seq<u64>, v: u64, index: Option<usize>)
    requires
        no_dups(s),
        !s.contains(v),
    ensures
        no_dups(placed(s, v, index)),
        forall|x: u64| #[trigger] placed(s, v, index).contains(x) <==> s.contains(x) || x == v,
{
    let r = placed(s, v, index);
    let i = match index {
        Some(i) => if i > s.len() {
            s.len() as int
        } else {
            i as int
        },
        None => s.len() as int,
    };
    assert(r == s.insert(i, v));
    assert(r[i] == v);
    assert forall|x: u64| #[trigger] r.contains(x) <==> s.contains(x) || x == v by {
        if r.contains(x) {
            let j = choose|j: int| 0 <= j < r.len() && r[j] == x;
            if j < i {
                assert(s[j] == x);
            } else if j > i {
                assert(s[j - 1] == x);
            }
        }
        if s.contains(x) {
            let j = choose|j: int| 0 <= j < s.len() && s[j] == x;
            if j < i {
                assert(r[j] == x);
            } else {
                assert(r[j + 1] == x);
            }
        }
    }
    assert forall|a: int, b: int| 0 <= a < b < r.len() implies r[a] != r[b] by {
        if a == i {
            assert(s.contains(r[b]));
        } else if b == i {
            assert(s.contains(r[a]));
        }
    }
}

/// Moving a node keeps the tree well formed.
#[verifier::rlimit(60)]
proof fn lemma_moved_wf(t: TreeView, id: u64, parent: Option<u64>, index: Option<usize>)
    requires
        tree_wf(t),
        t.nodes.contains_key(id),
        parent matches Some(p) ==> t.nodes.contains_key(p) && p != id,
    ensures
        tree_wf(moved(t, id, parent, index)),
        moved(t, id, parent, index).nodes.dom() == t.nodes.dom(),
{
    let t1 = detached(t, id);
    let t2 = moved(t, id, parent, index);
    let op = t.nodes[id].parent;
    match op {
        Some(q) => {
            lemma_without(t.nodes[q].children, id);
        },
        None => {
            lemma_without(t.roots, id);
        },
    }
    assert(t1.nodes.dom() =~= t.nodes.dom());
    assert forall|p: u64| #[trigger] t1.nodes.contains_key(p) implies no_dups(t1.nodes[p].children)
        && !t1.nodes[p].children.contains(id) by {
        if op == Some(p) {
        } else {
            if t1.nodes[p].children.contains(id) {
                assert(t.nodes[id].parent == Some(p));
            }
        }
    }
    assert(!t1.roots.contains(id) && no_dups(t1.roots)) by {
        if op is Some && t1.roots.contains(id) {
            assert(t.nodes[id].parent is None);
        }
    }
    match parent {
        Some(p) => {
            lemma_placed(t1.nodes[p].children, id, index);
        },
        None => {
            lemma_placed(t1.roots, id, index);
        },
    }
    assert(t2.nodes.dom() =~= t.nodes.dom());
    // Child lists after the move: the old ones without `id`, plus `id` under its new parent.
    assert forall|p: u64, c: u64| t2.nodes.contains_key(p) implies (#[trigger] t2.nodes[p].children.contains(c)
        <==> (t.nodes[p].children.contains(c) && c != id) || (c == id && parent == Some(p))) && no_dups(
        t2.nodes[p].children,
    ) by {
        if op == Some(p) {
            lemma_without(t.nodes[p].children, id);
        }
    }
    assert forall|c: u64| #[trigger] t2.roots.contains(c) <==> (t.roots.contains(c) && c != id) || (c
        == id && parent is None) by {
        if op is None {
            lemma_without(t.roots, id);
        }
    }
    assert forall|x: u64| #[trigger] t2.nodes.contains_key(x) implies match t2.nodes[x].parent {
        Some(p) => t2.nodes.contains_key(p) && t2.nodes[p].children.contains(x),
        None => t2.roots.contains(x),
    } by {
        if x != id {
            assert(t2.nodes[x].parent == t.nodes[x].parent);
            match t.nodes[x].parent {
                Some(p) => {
                    assert(t2.nodes[p].children.contains(x));
                },
                None => {},
            }
        }
    }
    assert forall|p: u64, c: u64|
        t2.nodes.contains_key(p) && #[trigger] t2.nodes[p].children.contains(c) implies t2.nodes.contains_key(c)
        && t2.nodes[c].parent == Some(p) by {
        if c != id {
            assert(t.nodes[p].children.contains(c));
        }
    }
    assert forall|x: u64| #[trigger] t2.nodes.contains_key(x) implies t2.nodes[x].parent != Some(x) by {
        if x != id {
            assert(t2.nodes[x].parent == t.nodes[x].parent);
        }
    }
    assert forall|x: u64| #[trigger] t2.meta.contains_key(x) <==> t2.nodes.contains_key(x) && is_shape(
        t2.nodes[x].kind,
    ) by {
        if t.nodes.contains_key(x) {
            assert(t2.nodes[x].kind == t.nodes[x].kind);
        }
    }
}

/// The tree with a new childless node `id` appended under `parent` (or to
/// the roots), carrying `m` as its sequencer metadata when it is a shape.
pub open spec fn added(t: TreeView, id: u64, kind: NodeKindTag, parent: Option<u64>, m: ShapeSequencerMeta) -> TreeView {
    let t1 = match parent {
        Some(p) => TreeView {
            nodes: t.nodes.insert(
                p,
                LinkView { children: t.nodes[p].children.push(id), ..t.nodes[p] },
            ),
            ..t
        },
        None => TreeView { roots: t.roots.push(id), ..t },
    };
    TreeView {
        nodes: t1.nodes.insert(id, LinkView { parent, children: Seq::empty(), kind }),
        roots: t1.roots,
        meta: if is_shape(kind) {
            t.meta.insert(id, m)
        } else {
            t.meta
        },
        next_id: if id >= t.next_id {
            (id + 1) as u64
        } else {
            t.next_id
        },
    }
}

/// The tree with the childless node `id` taken out.
pub open spec fn removed(t: TreeView, id: u64) -> TreeView {
    let t1 = detached(t, id);
    TreeView { nodes: t1.nodes.remove(id), meta: t1.meta.remove(id), ..t1 }
}

/// Two trees with the same nodes, links, child order and metadata (the id
/// counter aside).
pub open spec fn same_structure(a: TreeView, b: TreeView) -> bool {
    a.nodes == b.nodes && a.roots == b.roots && a.meta == b.meta
}

proof fn lemma_added_wf(t: TreeView, id: u64, kind: NodeKindTag, parent: Option<u64>, m: ShapeSequencerMeta)
    requires
        tree_wf(t),
        !t.nodes.contains_key(id),
        id < u64::MAX,
        parent matches Some(p) ==> t.nodes.contains_key(p),
    ensures
        tree_wf(added(t, id, kind, parent, m)),
{
    let t2 = added(t, id, kind, parent, m);
    assert(!t.roots.contains(id));
    match parent {
        Some(p) => {
            assert(!t.nodes[p].children.contains(id));
            lemma_placed(t.nodes[p].children, id, None);
            assert(placed(t.nodes[p].children, id, None) == t.nodes[p].children.push(id));
        },
        None => {
            lemma_placed(t.roots, id, None);
            assert(placed(t.roots, id, None) == t.roots.push(id));
        },
    }
    assert forall|p: u64, c: u64| t2.nodes.contains_key(p) implies (#[trigger] t2.nodes[p].children.contains(c)
        <==> (p != id && t.nodes[p].children.contains(c)) || (c == id && parent == Some(p))) && no_dups(
        t2.nodes[p].children,
    ) by {
        if p == id {
            assert(!t2.nodes[p].children.contains(c));
        }
    }
    assert forall|c: u64| #[trigger] t2.roots.contains(c) <==> t.roots.contains(c) || (c == id
        && parent is None) by {}
    assert forall|x: u64| #[trigger] t2.nodes.contains_key(x) implies match t2.nodes[x].parent {
        Some(p) => t2.nodes.contains_key(p) && t2.nodes[p].children.contains(x),
        None => t2.roots.contains(x),
    } by {
        if x != id {
            match t.nodes[x].parent {
                Some(p) => {
                    assert(t2.nodes[p].children.contains(x));
                },
                None => {},
            }
        }
    }
    assert forall|p: u64, c: u64|
        t2.nodes.contains_key(p) && #[trigger] t2.nodes[p].children.contains(c) implies t2.nodes.contains_key(c)
        && t2.nodes[c].parent == Some(p) by {
        if c != id {
            assert(t.nodes[p].children.contains(c));
        }
    }
}

proof fn lemma_removed_wf(t: TreeView, id: u64)
    requires
        tree_wf(t),
        t.nodes.contains_key(id),
        t.nodes[id].children.len() == 0,
    ensures
        tree_wf(removed(t, id)),
{
    let t1 = detached(t, id);
    let t2 = removed(t, id);
    let op = t.nodes[id].parent;
    match op {
        Some(q) => {
            lemma_without(t.nodes[q].children, id);
        },
        None => {
            lemma_without(t.roots, id);
        },
    }
    assert forall|p: u64, c: u64| t2.nodes.contains_key(p) implies (#[trigger] t2.nodes[p].children.contains(c)
        <==> t.nodes[p].children.contains(c) && c != id) && no_dups(t2.nodes[p].children) by {
        if op == Some(p) {
            lemma_without(t.nodes[p].children, id);
        } else if t.nodes[p].children.contains(id) {
            assert(t.nodes[id].parent == Some(p));
        }
    }
    assert forall|c: u64| #[trigger] t2.roots.contains(c) <==> t.roots.contains(c) && c != id by {
        if op is None {
            lemma_without(t.roots, id);
        } else if t.roots.contains(id) {
            assert(t.nodes[id].parent is None);
        }
    }
    assert forall|x: u64| #[trigger] t2.nodes.contains_key(x) implies match t2.nodes[x].parent {
        Some(p) => t2.nodes.contains_key(p) && t2.nodes[p].children.contains(x),
        None => t2.roots.contains(x),
    } by {
        assert(t2.nodes[x].parent == t.nodes[x].parent);
        match t.nodes[x].parent {
            Some(p) => {
                if p == id {
                    assert(t.nodes[id].children.contains(x));
                }
                assert(t2.nodes[p].children.contains(x));
            },
            None => {},
        }
    }
    assert forall|p: u64, c: u64|
        t2.nodes.contains_key(p) && #[trigger] t2.nodes[p].children.contains(c) implies t2.nodes.contains_key(c)
        && t2.nodes[c].parent == Some(p) by {
        assert(t.nodes[p].children.contains(c));
    }
    assert forall|x: u64| #[trigger] t2.meta.contains_key(x) <==> t2.nodes.contains_key(x) && is_shape(
        t2.nodes[x].kind,
    ) by {
        if t2.nodes.contains_key(x) {
            assert(t2.nodes[x].kind == t.nodes[x].kind);
        }
    }
    assert forall|x: u64| #[trigger] t2.nodes.contains_key(x) implies t2.nodes[x].parent != Some(x) by {
        assert(t2.nodes[x].parent == t.nodes[x].parent);
    }
}

/// Adding a node and then removing it gives back the same tree (but for
/// the id counter).
pub proof fn lemma_add_then_remove(t: TreeView, id: u64, kind: NodeKindTag, parent: Option<u64>, m: ShapeSequencerMeta)
    requires
        tree_wf(t),
        !t.nodes.contains_key(id),
        parent matches Some(p) ==> t.nodes.contains_key(p),
    ensures
        same_structure(removed(added(t, id, kind, parent, m), id), t),
{
    let a = added(t, id, kind, parent, m);
    let r = removed(a, id);
    assert(!t.roots.contains(id));
    match parent {
        Some(p) => {
            let s = t.nodes[p].children;
            assert(!s.contains(id));
            let s2 = s.push(id);
            assert(s2.contains(id)) by {
                assert(s2[s.len() as int] == id);
            }
            let k = first_index(s2, id);
            assert(k == s.len()) by {
                if k < s.len() {
                    assert(s[k] == id);
                }
            }
            assert(without(s2, id) =~= s);
            assert(r.nodes =~= t.nodes);
        },
        None => {
            let s = t.roots;
            let s2 = s.push(id);
            assert(s2.contains(id)) by {
                assert(s2[s.len() as int] == id);
            }
            let k = first_index(s2, id);
            assert(k == s.len()) by {
                if k < s.len() {
                    assert(s[k] == id);
                }
            }
            assert(without(s2, id) =~= s);
            assert(r.nodes =~= t.nodes);
        },
    }
    assert(!t.meta.contains_key(id));
    assert(r.meta =~= t.meta);
}

/// The child list that `parent` names: a node's children, or the roots.
pub open spec fn list_of(t: TreeView, parent: Option<u64>) -> Seq<u64> {
    match parent {
        Some(p) => t.nodes[p].children,
        None => t.roots,
    }
}

proof fn lemma_unplace(s: Seq<u64>, v: u64, index: Option<usize>)
    requires
        !s.contains(v),
    ensures
        without(placed(s, v, index), v) == s,
{
    let i = match index {
        Some(i) => if i > s.len() {
            s.len() as int
        } else {
            i as int
        },
        None => s.len() as int,
    };
    let r = placed(s, v, index);
    assert(r[i] == v);
    let k = first_index(r, v);
    assert(k == i) by {
        if k < i {
            assert(s[k] == v);
        } else if k > i {
        }
    }
    assert(r.remove(i) =~= s);
}

proof fn lemma_replace(s: Seq<u64>, v: u64, oi: usize)
    requires
        s.contains(v),
        oi == first_index(s, v),
    ensures
        placed(without(s, v), v, Some(oi)) == s,
{
    lemma_first_index(s, v);
    assert(without(s, v).insert(oi as int, v) =~= s);
}

/// Moving a node and then moving it back to where it stood gives back the
/// same tree.
pub proof fn lemma_move_back(t: TreeView, id: u64, parent: Option<u64>, index: Option<usize>, old_index: usize)
    requires
        tree_wf(t),
        t.nodes.contains_key(id),
        parent matches Some(p) ==> t.nodes.contains_key(p) && p != id,
        old_index == first_index(list_of(t, t.nodes[id].parent), id),
    ensures
        same_structure(moved(moved(t, id, parent, index), id, t.nodes[id].parent, Some(old_index)), t),
{
    let op = t.nodes[id].parent;
    let l0 = list_of(t, op);
    assert(l0.contains(id));
    lemma_moved_wf(t, id, parent, index);
    let t1 = detached(t, id);
    let t2 = moved(t, id, parent, index);
    let t3 = detached(t2, id);
    let t4 = moved(t2, id, op, Some(old_index));
    assert(t2.nodes[id].parent == parent);
    // the list `id` joined on the first move
    let l1 = list_of(t1, parent);
    assert(!l1.contains(id)) by {
        lemma_without(l0, id);
        match parent {
            Some(p) => {
                if op != parent && t.nodes[p].children.contains(id) {
                    assert(t.nodes[id].parent == Some(p));
                }
            },
            None => {
                if op is Some && t.roots.contains(id) {
                }
            },
        }
    }
    lemma_unplace(l1, id, index);
    lemma_replace(l0, id, old_index);
    assert(list_of(t3, parent) == l1);
    assert(list_of(t3, op) == without(l0, id)) by {
        if op != parent {
            assert(list_of(t3, op) == list_of(t1, op));
        }
    }
    assert(t4.nodes =~= t.nodes) by {
        assert forall|x: u64| #[trigger] t4.nodes.contains_key(x) <==> t.nodes.contains_key(x) by {}
        assert forall|x: u64| t4.nodes.contains_key(x) implies #[trigger] t4.nodes[x] == t.nodes[x] by {
            if x != id {
                if Some(x) == op {
                    assert(t4.nodes[x].children =~= t.nodes[x].children);
                } else if Some(x) == parent {
                    assert(t4.nodes[x].children =~= t.nodes[x].children);
                }
            }
        }
    }
    assert(t4.roots =~= t.roots);
}

/// A reversible change to the tree's structure. Each carries what its
/// reverse needs.
pub enum TreeCommand {
    /// Add a childless node; its reverse removes it.
    Add { id: u64, kind: NodeKindTag, parent: Option<u64>, meta: Option<ShapeSequencerMeta> },
    /// Move a node from `old_parent` at `old_index` to `new_parent` at
    /// `new_index`; its reverse moves it back.
    Move {
        id: u64,
        old_parent: Option<u64>,
        old_index: usize,
        new_parent: Option<u64>,
        new_index: Option<usize>,
    },
    /// Replace a shape's sequencer metadata; its reverse restores `before`.
    SetMeta { id: u64, before: ShapeSequencerMeta, after: ShapeSequencerMeta },
}

/// Whether a command applies to the tree, forward or in reverse.
pub open spec fn command_applies(t: TreeView, c: TreeCommand, reverse: bool) -> bool {
    match c {
        TreeCommand::Add { id, kind, parent, meta } => if reverse {
            t.nodes.contains_key(id) && t.nodes[id].children.len() == 0
        } else {
            !t.nodes.contains_key(id) && id != u64::MAX && (parent matches Some(p)
                ==> t.nodes.contains_key(p))
        },
        TreeCommand::Move { id, old_parent, old_index, new_parent, new_index } => {
            let target = if reverse {
                old_parent
            } else {
                new_parent
            };
            t.nodes.contains_key(id) && !(target matches Some(p) && (!t.nodes.contains_key(p)
                || in_subtree(t, p, id)))
        },
        TreeCommand::SetMeta { id, before, after } => t.meta.contains_key(id),
    }
}

/// The tree after a command that applies, up to the metadata a new shape
/// receives.
pub open spec fn applied_as(t: TreeView, c: TreeCommand, reverse: bool, r: TreeView) -> bool {
    match c {
        TreeCommand::Add { id, kind, parent, meta } => if reverse {
            r == removed(t, id)
        } else {
            exists|m: ShapeSequencerMeta|
                r == added(t, id, kind, parent, m) && (meta matches Some(g) ==> m == g)
        },
        TreeCommand::Move { id, old_parent, old_index, new_parent, new_index } => if reverse {
            r == moved(t, id, old_parent, Some(old_index))
        } else {
            r == moved(t, id, new_parent, new_index)
        },
        TreeCommand::SetMeta { id, before, after } => r == (TreeView {
            meta: t.meta.insert(id, if reverse { before } else { after }),
            ..t
        }),
    }
}

/// Whether `c` was recorded faithfully for the tree it first applies to:
/// a Move names where the node stood, a SetMeta what it replaces.
pub open spec fn recorded_for(t: TreeView, c: TreeCommand) -> bool {
    match c {
        TreeCommand::Add { .. } => true,
        TreeCommand::Move { id, old_parent, old_index, new_parent, new_index } => t.nodes.contains_key(
            id,
        ) && old_parent == t.nodes[id].parent && old_index == first_index(list_of(t, old_parent), id),
        TreeCommand::SetMeta { id, before, after } => t.meta.contains_key(id) && t.meta[id] == before,
    }
}

/// Undoing a command right after applying it gives back the same tree.
pub proof fn lemma_undo_inverts(t: TreeView, c: TreeCommand, r: TreeView, u: TreeView)
    requires
        tree_wf(t),
        recorded_for(t, c),
        command_applies(t, c, false),
        applied_as(t, c, false, r),
        applied_as(r, c, true, u),
    ensures
        same_structure(u, t),
{
    match c {
        TreeCommand::Add { id, kind, parent, meta } => {
            let m = choose|m: ShapeSequencerMeta|
                r == added(t, id, kind, parent, m) && (meta matches Some(g) ==> m == g);
            lemma_add_then_remove(t, id, kind, parent, m);
        },
        TreeCommand::Move { id, old_parent, old_index, new_parent, new_index } => {
            if let Some(p) = new_parent {
                assert(up(t, p, 0) == Some(p));
            }
            lemma_move_back(t, id, new_parent, new_index, old_index);
        },
        TreeCommand::SetMeta { id, before, after } => {
            assert(u.meta =~= t.meta);
        },
    }
}

/// The tree with node `id` of kind `kind`: a shape keeps its metadata or
/// gets `m`, anything else has none.
pub open spec fn rekinded(t: TreeView, id: u64, kind: NodeKindTag, m: ShapeSequencerMeta) -> TreeView {
    TreeView {
        nodes: t.nodes.insert(id, LinkView { kind, ..t.nodes[id] }),
        meta: if !is_shape(kind) {
            t.meta.remove(id)
        } else if t.meta.contains_key(id) {
            t.meta
        } else {
            t.meta.insert(id, m)
        },
        ..t
    }
}

proof fn lemma_rekinded_wf(t: TreeView, id: u64, kind: NodeKindTag, m: ShapeSequencerMeta)
    requires
        tree_wf(t),
        t.nodes.contains_key(id),
    ensures
        tree_wf(rekinded(t, id, kind, m)),
{
    let t2 = rekinded(t, id, kind, m);
    assert(t2.nodes.dom() =~= t.nodes.dom());
    assert forall|x: u64| t2.nodes.contains_key(x) implies #[trigger] t2.nodes[x].parent == t.nodes[x].parent
        && t2.nodes[x].children == t.nodes[x].children by {}
    assert forall|p: u64, c: u64|
        t2.nodes.contains_key(p) && #[trigger] t2.nodes[p].children.contains(c) implies t2.nodes.contains_key(c)
        && t2.nodes[c].parent == Some(p) by {
        assert(t.nodes[p].children.contains(c));
    }
    assert forall|x: u64| #[trigger] t2.nodes.contains_key(x) implies match t2.nodes[x].parent {
        Some(p) => t2.nodes.contains_key(p) && t2.nodes[p].children.contains(x),
        None => t2.roots.contains(x),
    } by {
        match t.nodes[x].parent {
            Some(p) => {
                assert(t2.nodes[p].children == t.nodes[p].children);
            },
            None => {},
        }
    }
    assert forall|x: u64| #[trigger] t2.meta.contains_key(x) <==> t2.nodes.contains_key(x) && is_shape(
        t2.nodes[x].kind,
    ) by {}
}

/// Why a structural change was refused.
#[derive(Debug, Clone, Copy, PartialEq, Eq, Structural)]
pub enum TreeError {
    /// The node does not exist.
    MissingNode(u64),
    /// The named parent does not exist.
    MissingParent(u64),
    /// The move would put a node inside its own subtree.
    IntoOwnSubtree,
    /// The id is already in use.
    IdInUse(u64),
    /// The node is not a shape.
    NotAShape(u64),
    /// The node still has children.
    HasChildren(u64),
    /// No id can follow this one.
    IdOutOfRange(u64),
}

#[derive(Debug)]
pub struct SceneTree {
    nodes: HashMap<u64, TreeLink>,
    root_children: Vec<u64>,
    shape_meta: HashMap<u64, ShapeSequencerMeta>,
    next_id: u64,
    next_sequencer_index: u64,
}

impl View for SceneTree {
    type V = TreeView;

    closed spec fn view(&self) -> TreeView {
        TreeView {
            nodes: self.nodes@.map_values(|l: TreeLink| link_view(l)),
            roots: self.root_children@,
            meta: self.shape_meta@,
            next_id: self.next_id,
        }
    }
}

fn find_index(s: &Vec<u64>, v: u64) -> (r: Option<usize>)
    ensures
        r matches Some(i) ==> i < s@.len() && s@[i as int] == v && forall|j: int|
            0 <= j < i ==> s@[j] != v,
        r is None ==> !s@.contains(v),
{
    let mut i: usize = 0;
    while i < s.len()
        invariant
            i <= s@.len(),
            forall|j: int| 0 <= j < i ==> s@[j] != v,
        decreases s@.len() - i,
    {
        if s[i] == v {
            return Some(i);
        }
        i = i + 1;
    }
    None
}

/// Removes the first `v` from `s`.
fn remove_value(s: &mut Vec<u64>, v: u64)
    ensures
        final(s)@ == without(old(s)@, v),
{
    match find_index(s, v) {
        Some(i) => {
            let ghost k = first_index(old(s)@, v);
            assert(old(s)@.contains(v));
            assert(k == i as int) by {
                if k < i as int {
                } else if k > i as int {
                }
            }
            s.remove(i);
        },
        None => {},
    }
}

/// Inserts `v` at `index`, or at the end.
fn place_value(s: &mut Vec<u64>, v: u64, index: Option<usize>)
    ensures
        final(s)@ == placed(old(s)@, v, index),
{
    let i = match index {
        Some(i) => if i > s.len() {
            s.len()
        } else {
            i
        },
        None => s.len(),
    };
    s.insert(i, v);
}

impl SceneTree {
    pub open spec fn wf(&self) -> bool {
        tree_wf(self@)
    }

    pub fn new() -> (t: SceneTree)
        ensures
            t.wf(),
            t@.nodes == Map::<u64, LinkView>::empty(),
            t@.roots == Seq::<u64>::empty(),
    {
        let t = SceneTree {
            nodes: HashMap::new(),
            root_children: Vec::new(),
            shape_meta: HashMap::new(),
            next_id: 1,
            next_sequencer_index: 1,
        };
        assert(t@.nodes =~= Map::<u64, LinkView>::empty());
        t
    }

    pub fn contains(&self, id: u64) -> (r: bool)
        ensures
            r == self@.nodes.contains_key(id),
    {
        self.nodes.contains_key(&id)
    }

    /// The parent of a node, `None` for a root or a missing node.
    pub fn parent(&self, id: u64) -> (r: Option<u64>)
        ensures
            self@.nodes.contains_key(id) ==> r == self@.nodes[id].parent,
            !self@.nodes.contains_key(id) ==> r is None,
    {
        match self.nodes.get(&id) {
            Some(l) => l.parent,
            None => None,
        }
    }

    /// Whether `x` is `root` or lies in its subtree.
    pub fn is_in_subtree(&self, x: u64, root: u64) -> (r: bool)
        ensures
            r == in_subtree(self@, x, root),
    {
        let n = self.nodes.len();
        assert(n == self@.nodes.dom().len()) by {
            assert(self@.nodes.dom() =~= self.nodes@.dom());
        }
        let mut cur: Option<u64> = Some(x);
        let mut k: usize = 0;
        loop
            invariant
                k <= n,
                n == self@.nodes.dom().len(),
                cur == up(self@, x, k as nat),
                forall|j: nat| j < k ==> up(self@, x, j) != Some(root),
            decreases n - k,
        {
            if cur == Some(root) {
                return true;
            }
            if k == n {
                assert forall|j: nat| j <= n implies #[trigger] up(self@, x, j) != Some(root) by {
                    if j < k {
                    }
                }
                return false;
            }
            cur = match cur {
                Some(y) => self.parent(y),
                None => None,
            };
            k = k + 1;
        }
    }

    /// Replaces the child list of an existing node.
    fn set_children_of(&mut self, p: u64, f_remove: Option<u64>, f_place: Option<(u64, Option<usize>)>)
        requires
            old(self)@.nodes.contains_key(p),
        ensures
            final(self)@ == (TreeView {
                nodes: old(self)@.nodes.insert(
                    p,
                    LinkView {
                        children: match f_place {
                            Some((v, index)) => placed(
                                match f_remove {
                                    Some(r) => without(old(self)@.nodes[p].children, r),
                                    None => old(self)@.nodes[p].children,
                                },
                                v,
                                index,
                            ),
                            None => match f_remove {
                                Some(r) => without(old(self)@.nodes[p].children, r),
                                None => old(self)@.nodes[p].children,
                            },
                        },
                        ..old(self)@.nodes[p]
                    },
                ),
                ..old(self)@
            }),
    {
        let ghost t0 = self@;
        let mut l = self.nodes.remove(&p).unwrap();
        if let Some(r) = f_remove {
            remove_value(&mut l.children, r);
        }
        if let Some((v, index)) = f_place {
            place_value(&mut l.children, v, index);
        }
        self.nodes.insert(p, l);
        assert(self@.nodes =~= t0.nodes.insert(p, link_view(l)));
    }

    /// Sets the parent link of an existing node.
    fn set_parent_of(&mut self, id: u64, parent: Option<u64>)
        requires
            old(self)@.nodes.contains_key(id),
        ensures
            final(self)@ == (TreeView {
                nodes: old(self)@.nodes.insert(id, LinkView { parent, ..old(self)@.nodes[id] }),
                ..old(self)@
            }),
    {
        let ghost t0 = self@;
        let mut l = self.nodes.remove(&id).unwrap();
        l.parent = parent;
        self.nodes.insert(id, l);
        assert(self@.nodes =~= t0.nodes.insert(id, LinkView { parent, ..t0.nodes[id] }));
    }

    /// Moves `id` under `new_parent` (the roots for `None`) at `index`
    /// (the end for `None` or past the end). Refused, with the tree left as
    /// it was, when a node is missing or the new parent lies in the moved
    /// node's own subtree.
    pub fn move_node(&mut self, id: u64, new_parent: Option<u64>, index: Option<usize>) -> (r: Result<
        (),
        TreeError,
    >)
        requires
            old(self).wf(),
        ensures
            final(self).wf(),
            r is Err <==> (!old(self)@.nodes.contains_key(id) || (new_parent matches Some(p) && (
            !old(self)@.nodes.contains_key(p) || in_subtree(old(self)@, p, id)))),
            r is Err ==> final(self)@ == old(self)@,
            r is Ok ==> final(self)@ == moved(old(self)@, id, new_parent, index),
    {
        if !self.nodes.contains_key(&id) {
            return Err(TreeError::MissingNode(id));
        }
        if let Some(p) = new_parent {
            if !self.nodes.contains_key(&p) {
                return Err(TreeError::MissingParent(p));
            }
            if self.is_in_subtree(p, id) {
                return Err(TreeError::IntoOwnSubtree);
            }
            assert(up(self@, p, 0) == Some(p));
        }
        let ghost t0 = self@;
        proof {
            lemma_moved_wf(t0, id, new_parent, index);
        }
        let old_parent = self.parent(id);
        match old_parent {
            Some(q) => {
                self.set_children_of(q, Some(id), None);
            },
            None => {
                remove_value(&mut self.root_children, id);
            },
        }
        assert(self@ == detached(t0, id));
        match new_parent {
            Some(p) => {
                self.set_children_of(p, None, Some((id, index)));
            },
            None => {
                place_value(&mut self.root_children, id, index);
            },
        }
        self.set_parent_of(id, new_parent);
        assert(self@ == moved(t0, id, new_parent, index));
        Ok(())
    }

    /// Moves `id` to `new_index` among its siblings, clamped to the end.
    pub fn reorder_child(&mut self, id: u64, new_index: usize) -> (r: Result<(), TreeError>)
        requires
            old(self).wf(),
        ensures
            final(self).wf(),
            r is Err <==> !old(self)@.nodes.contains_key(id),
            r is Err ==> final(self)@ == old(self)@,
            r is Ok ==> final(self)@ == moved(
                old(self)@,
                id,
                old(self)@.nodes[id].parent,
                Some(new_index),
            ),
    {
        if !self.nodes.contains_key(&id) {
            return Err(TreeError::MissingNode(id));
        }
        let parent = self.parent(id);
        let ghost t0 = self@;
        proof {
            lemma_moved_wf(t0, id, parent, Some(new_index));
        }
        match parent {
            Some(q) => {
                self.set_children_of(q, Some(id), None);
            },
            None => {
                remove_value(&mut self.root_children, id);
            },
        }
        assert(self@ == detached(t0, id));
        match parent {
            Some(q) => {
                self.set_children_of(q, None, Some((id, Some(new_index))));
            },
            None => {
                place_value(&mut self.root_children, id, Some(new_index));
            },
        }
        self.set_parent_of(id, parent);
        assert(self@ == moved(t0, id, parent, Some(new_index)));
        Ok(())
    }

    /// Adds a childless node with a given, unused id at the end of `parent`'s
    /// children (or of the roots). A shape gets `meta`, or fresh metadata at
    /// the end of the sequencer order.
    pub fn add_node_with_id(
        &mut self,
        id: u64,
        kind: NodeKindTag,
        parent: Option<u64>,
        meta: Option<ShapeSequencerMeta>,
    ) -> (r: Result<(), TreeError>)
        requires
            old(self).wf(),
        ensures
            final(self).wf(),
            r is Err <==> (old(self)@.nodes.contains_key(id) || id == u64::MAX || (parent matches Some(
                p,
            ) && !old(self)@.nodes.contains_key(p))),
            r is Err ==> final(self)@ == old(self)@,
            r is Ok ==> exists|m: ShapeSequencerMeta|
                final(self)@ == added(old(self)@, id, kind, parent, m) && (meta matches Some(g) ==> m
                    == g),
    {
        if let Some(p) = parent {
            if !self.nodes.contains_key(&p) {
                return Err(TreeError::MissingParent(p));
            }
        }
        if self.nodes.contains_key(&id) {
            return Err(TreeError::IdInUse(id));
        }
        if id == u64::MAX {
            return Err(TreeError::IdOutOfRange(id));
        }
        let ghost t0 = self@;
        let m = match meta {
            Some(g) => g,
            None => ShapeSequencerMeta::with_index(self.next_sequencer_index),
        };
        proof {
            lemma_added_wf(t0, id, kind, parent, m);
        }
        match parent {
            Some(p) => {
                self.set_children_of(p, None, Some((id, None)));
                assert(placed(t0.nodes[p].children, id, None) =~= t0.nodes[p].children.push(id));
            },
            None => {
                place_value(&mut self.root_children, id, None);
                assert(placed(t0.roots, id, None) =~= t0.roots.push(id));
            },
        }
        let fresh = TreeLink { parent, children: Vec::new(), kind };
        assert(link_view(fresh) == LinkView { parent, children: Seq::<u64>::empty(), kind }) by {
            assert(fresh.children@ =~= Seq::<u64>::empty());
        }
        self.nodes.insert(id, fresh);
        if matches!(kind, NodeKindTag::Shape) {
            self.shape_meta.insert(id, m);
            if meta.is_none() && self.next_sequencer_index < u64::MAX {
                self.next_sequencer_index = self.next_sequencer_index + 1;
            }
        }
        if id >= self.next_id {
            self.next_id = id + 1;
        }
        assert(self@ =~= added(t0, id, kind, parent, m)) by {
            assert(self@.nodes =~= added(t0, id, kind, parent, m).nodes);
            assert(self@.meta =~= added(t0, id, kind, parent, m).meta);
        }
        Ok(())
    }

    /// Adds a childless node under `parent` with the next free id.
    pub fn add_node(&mut self, kind: NodeKindTag, parent: Option<u64>) -> (r: Result<u64, TreeError>)
        requires
            old(self).wf(),
        ensures
            final(self).wf(),
            r is Err <==> (old(self)@.next_id == u64::MAX || (parent matches Some(p)
                && !old(self)@.nodes.contains_key(p))),
            r is Err ==> final(self)@ == old(self)@,
            r matches Ok(id) ==> id == old(self)@.next_id && exists|m: ShapeSequencerMeta|
                final(self)@ == added(old(self)@, id, kind, parent, m),
    {
        let id = self.next_id;
        assert(!self@.nodes.contains_key(id));
        match self.add_node_with_id(id, kind, parent, None) {
            Ok(()) => Ok(id),
            Err(e) => Err(e),
        }
    }

    /// Removes a childless node and its metadata.
    pub fn remove_leaf(&mut self, id: u64) -> (r: Result<(), TreeError>)
        requires
            old(self).wf(),
        ensures
            final(self).wf(),
            r is Err <==> (!old(self)@.nodes.contains_key(id) || old(self)@.nodes[id].children.len()
                > 0),
            r is Err ==> final(self)@ == old(self)@,
            r is Ok ==> final(self)@ == removed(old(self)@, id),
    {
        match self.nodes.get(&id) {
            None => {
                return Err(TreeError::MissingNode(id));
            },
            Some(l) => {
                if l.children.len() > 0 {
                    return Err(TreeError::HasChildren(id));
                }
            },
        }
        let ghost t0 = self@;
        proof {
            lemma_removed_wf(t0, id);
        }
        let old_parent = self.parent(id);
        match old_parent {
            Some(q) => {
                self.set_children_of(q, Some(id), None);
            },
            None => {
                remove_value(&mut self.root_children, id);
            },
        }
        assert(self@ == detached(t0, id));
        self.nodes.remove(&id);
        self.shape_meta.remove(&id);
        assert(self@ =~= removed(t0, id)) by {
            assert(self@.nodes =~= removed(t0, id).nodes);
        }
        Ok(())
    }

    /// The children of a node, in order; empty for a missing node.
    pub fn children(&self, id: u64) -> (r: Vec<u64>)
        ensures
            self@.nodes.contains_key(id) ==> r@ == self@.nodes[id].children,
            !self@.nodes.contains_key(id) ==> r@.len() == 0,
    {
        match self.nodes.get(&id) {
            Some(l) => {
                let mut r: Vec<u64> = Vec::new();
                let mut i: usize = 0;
                while i < l.children.len()
                    invariant
                        i <= l.children@.len(),
                        r@ == l.children@.subrange(0, i as int),
                    decreases l.children@.len() - i,
                {
                    r.push(l.children[i]);
                    assert(l.children@.subrange(0, i + 1) == l.children@.subrange(0, i as int).push(
                        l.children@[i as int],
                    ));
                    i = i + 1;
                }
                assert(l.children@.subrange(0, i as int) == l.children@);
                r
            },
            None => Vec::new(),
        }
    }

    /// The top-level nodes, in order.
    pub fn root_children(&self) -> (r: &Vec<u64>)
        ensures
            r@ == self@.roots,
    {
        &self.root_children
    }

    /// The kind tag of a node.
    pub fn kind(&self, id: u64) -> (r: Option<NodeKindTag>)
        ensures
            self@.nodes.contains_key(id) ==> r == Some(self@.nodes[id].kind),
            !self@.nodes.contains_key(id) ==> r is None,
    {
        match self.nodes.get(&id) {
            Some(l) => Some(l.kind),
            None => None,
        }
    }

    /// The sequencer metadata of a shape.
    pub fn shape_meta(&self, id: u64) -> (r: Option<ShapeSequencerMeta>)
        ensures
            self@.meta.contains_key(id) ==> r == Some(self@.meta[id]),
            !self@.meta.contains_key(id) ==> r is None,
    {
        match self.shape_meta.get(&id) {
            Some(m) => Some(*m),
            None => None,
        }
    }

    /// Replaces the metadata of a shape; refused for anything else.
    pub fn set_shape_meta(&mut self, id: u64, meta: ShapeSequencerMeta) -> (r: Result<(), TreeError>)
        requires
            old(self).wf(),
        ensures
            final(self).wf(),
            r is Err <==> !old(self)@.meta.contains_key(id),
            r is Err ==> final(self)@ == old(self)@,
            r is Ok ==> final(self)@ == (TreeView { meta: old(self)@.meta.insert(id, meta), ..old(self)@ }),
    {
        if !self.shape_meta.contains_key(&id) {
            return Err(TreeError::NotAShape(id));
        }
        self.shape_meta.insert(id, meta);
        Ok(())
    }

    /// Applies a command, forward or in reverse. A command that does not
    /// apply is refused and leaves the tree as it was.
    pub fn apply_command(&mut self, cmd: &TreeCommand, reverse: bool) -> (r: Result<(), TreeError>)
        requires
            old(self).wf(),
        ensures
            final(self).wf(),
            r is Ok <==> command_applies(old(self)@, *cmd, reverse),
            r is Err ==> final(self)@ == old(self)@,
            r is Ok ==> applied_as(old(self)@, *cmd, reverse, final(self)@),
    {
        match cmd {
            TreeCommand::Add { id, kind, parent, meta } => {
                if reverse {
                    self.remove_leaf(*id)
                } else {
                    self.add_node_with_id(*id, *kind, *parent, *meta)
                }
            },
            TreeCommand::Move { id, old_parent, old_index, new_parent, new_index } => {
                if reverse {
                    self.move_node(*id, *old_parent, Some(*old_index))
                } else {
                    self.move_node(*id, *new_parent, *new_index)
                }
            },
            TreeCommand::SetMeta { id, before, after } => {
                self.set_shape_meta(*id, if reverse { *before } else { *after })
            },
        }
    }

    /// Where a node stands: its parent and its position among its siblings.
    pub fn position(&self, id: u64) -> (r: Option<(Option<u64>, usize)>)
        requires
            self.wf(),
        ensures
            !self@.nodes.contains_key(id) ==> r is None,
            self@.nodes.contains_key(id) ==> (r matches Some((p, i)) && p == self@.nodes[id].parent
                && i == first_index(list_of(self@, p), id)),
    {
        if !self.nodes.contains_key(&id) {
            return None;
        }
        let p = self.parent(id);
        let list = match p {
            Some(q) => self.children(q),
            None => {
                let mut v: Vec<u64> = Vec::new();
                let rc = self.root_children();
                let mut i: usize = 0;
                while i < rc.len()
                    invariant
                        i <= rc@.len(),
                        v@ == rc@.subrange(0, i as int),
                    decreases rc@.len() - i,
                {
                    v.push(rc[i]);
                    assert(rc@.subrange(0, i + 1) == rc@.subrange(0, i as int).push(rc@[i as int]));
                    i = i + 1;
                }
                assert(rc@.subrange(0, i as int) == rc@);
                v
            },
        };
        assert(list@ == list_of(self@, p));
        match find_index(&list, id) {
            Some(i) => {
                let ghost k = first_index(list@, id);
                assert(list@.contains(id));
                assert(k == i as int) by {
                    if k < i as int {
                    } else if k > i as int {
                    }
                }
                Some((p, i))
            },
            None => {
                assert(list@.contains(id));
                None
            },
        }
    }

    /// Changes a node's kind tag: a node that becomes a shape gets `meta`
    /// or fresh metadata, one that stops being a shape loses its metadata.
    pub fn set_kind(&mut self, id: u64, kind: NodeKindTag, meta: Option<ShapeSequencerMeta>) -> (r: Result<(), TreeError>)
        requires
            old(self).wf(),
        ensures
            final(self).wf(),
            r is Err <==> !old(self)@.nodes.contains_key(id),
            r is Err ==> final(self)@ == old(self)@,
            r is Ok ==> exists|m: ShapeSequencerMeta|
                final(self)@ == rekinded(old(self)@, id, kind, m) && (meta matches Some(g) ==> m == g),
    {
        if !self.nodes.contains_key(&id) {
            return Err(TreeError::MissingNode(id));
        }
        let ghost t0 = self@;
        let m = match meta {
            Some(g) => g,
            None => ShapeSequencerMeta::with_index(self.next_sequencer_index),
        };
        proof {
            lemma_rekinded_wf(t0, id, kind, m);
        }
        let mut l = self.nodes.remove(&id).unwrap();
        l.kind = kind;
        self.nodes.insert(id, l);
        if !matches!(kind, NodeKindTag::Shape) {
            self.shape_meta.remove(&id);
        } else if !self.shape_meta.contains_key(&id) {
            self.shape_meta.insert(id, m);
            if meta.is_none() && self.next_sequencer_index < u64::MAX {
                self.next_sequencer_index = self.next_sequencer_index + 1;
            }
        }
        assert(self@ =~= rekinded(t0, id, kind, m)) by {
            assert(self@.nodes =~= rekinded(t0, id, kind, m).nodes);
            assert(self@.meta =~= rekinded(t0, id, kind, m).meta);
        }
        Ok(())
    }
}

/// A node of the tree view shown in a layers panel.
pub struct TreeNode {
    pub id: crate::sequencer::NodeId,
    pub name: String,
    pub kind: TreeNodeKind,
    pub children: Vec<TreeNode>,
}

/// Simplified node kind for the tree view.
#[derive(Debug, Clone, Copy, PartialEq, Eq, Structural)]
pub enum TreeNodeKind {
    Layer { visible: bool, locked: bool },
    Group,
    Shape,
}

impl TreeNodeKind {
    /// The tree-view kind of a node kind tag.
    pub fn of_tag(tag: NodeKindTag) -> (k: TreeNodeKind)
        ensures
            tag matches NodeKindTag::Layer { visible, locked } ==> k == (TreeNodeKind::Layer {
                visible,
                locked,
            }),
            tag is Group ==> k is Group,
            tag is Shape ==> k is Shape,
    {
        match tag {
            NodeKindTag::Layer { visible, locked } => TreeNodeKind::Layer { visible, locked },
            NodeKindTag::Group => TreeNodeKind::Group,
            NodeKindTag::Shape => TreeNodeKind::Shape,
        }
    }
}

} // verus!
