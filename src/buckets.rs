//! Color buckets for routing: blocks are grouped by thread color, and the
//! groups are ordered by where each color is first seen.
use vstd::prelude::*;

use crate::design::Color;

verus! {

/// Whether some block before `i` is in bucket `b`.
pub open spec fn seen_before(ids: Seq<usize>, b: int, i: int) -> bool {
    exists|j: int| 0 <= j < i && ids[j] == b
}

/// `ids` assigns each block the bucket of its color, and `firsts` lists the
/// bucket colors: distinct, in the order they first occur.
pub open spec fn buckets_of(colors: Seq<Color>, firsts: Seq<Color>, ids: Seq<usize>) -> bool {
    &&& ids.len() == colors.len()
    &&& forall|a: int, b: int| 0 <= a < b < firsts.len() ==> firsts[a] != firsts[b]
    &&& forall|i: int|
        0 <= i < ids.len() ==> (#[trigger] ids[i]) < firsts.len() && firsts[ids[i] as int]
            == colors[i]
    &&& forall|b: int| 0 <= b < firsts.len() ==> #[trigger] seen_before(ids, b, ids.len() as int)
    &&& forall|i: int, b: int|
        0 <= i < ids.len() && 0 <= b < ids[i] ==> #[trigger] seen_before(ids, b, i)
}

/// Groups blocks by color: the bucket of each block, and the color of each
/// bucket, buckets numbered in the order their color first occurs.
pub fn color_buckets(colors: &Vec<Color>) -> (r: (Vec<Color>, Vec<usize>))
    ensures
        buckets_of(colors@, r.0@, r.1@),
{
    let mut firsts: Vec<Color> = Vec::new();
    let mut ids: Vec<usize> = Vec::new();
    let mut i: usize = 0;
    while i < colors.len()
        invariant
            i <= colors@.len(),
            firsts@.len() <= i,
            buckets_of(colors@.subrange(0, i as int), firsts@, ids@),
        decreases colors@.len() - i,
    {
        let c = colors[i];
        let mut b: usize = 0;
        while b < firsts.len() && firsts[b] != c
            invariant
                b <= firsts@.len(),
                forall|k: int| 0 <= k < b ==> firsts@[k] != c,
            decreases firsts@.len() - b,
        {
            b = b + 1;
        }
        let ghost old_ids = ids@;
        if b == firsts.len() {
            firsts.push(c);
        }
        ids.push(b);
        assert forall|bb: int| 0 <= bb < firsts@.len() implies #[trigger] seen_before(
            ids@,
            bb,
            ids@.len() as int,
        ) by {
            if bb == b {
                assert(ids@[i as int] == bb);
            } else {
                assert(seen_before(old_ids, bb, old_ids.len() as int));
                let j = choose|j: int| 0 <= j < old_ids.len() && old_ids[j] == bb;
                assert(ids@[j] == bb);
            }
        }
        assert forall|k: int, bb: int| 0 <= k < ids@.len() && 0 <= bb < ids@[k] implies #[trigger] seen_before(
            ids@,
            bb,
            k,
        ) by {
            if k < i {
                assert(seen_before(old_ids, bb, k));
                let j = choose|j: int| 0 <= j < k && old_ids[j] == bb;
                assert(ids@[j] == bb);
            } else {
                assert(seen_before(old_ids, bb, old_ids.len() as int));
                let j = choose|j: int| 0 <= j < old_ids.len() && old_ids[j] == bb;
                assert(ids@[j] == bb);
            }
        }
        assert(colors@.subrange(0, i + 1) =~= colors@.subrange(0, i as int).push(c));
        i = i + 1;
    }
    assert(colors@.subrange(0, i as int) =~= colors@);
    (firsts, ids)
}

} // verus!
