//! Taking a record with at most one child out of the tree.

use vstd::prelude::*;
use crate::book::{with_child, OrderBook};
use crate::record::{key_gt, vacant, Color, Record};
use crate::shape::{
    anchored, colored, height_ok, is_red, linked, live, red_ok, red_safe, reds_ok, slot_ok,
    sorted, Shape,
};

verus! {

/// The index `x` after the element at `k` was removed.
pub open spec fn drop_idx(x: int, k: int) -> int {
    if x > k {
        x - 1
    } else {
        x
    }
}

/// The shape of the tree after `v`, which stood at index `k`, left it.
pub open spec fn shape_without(s: Shape, v: usize, k: int) -> Shape {
    Shape {
        order: s.order.remove(k),
        pos: Seq::new(
            s.pos.len(),
            |a: int|
                if a == v {
                    -1
                } else {
                    drop_idx(s.pos[a], k)
                },
        ),
        lo: Seq::new(s.lo.len(), |a: int| drop_idx(s.lo[a], k)),
        hi: Seq::new(s.hi.len(), |a: int| drop_idx(s.hi[a], k)),
    }
}

/// The only child of `v`, or 0 if it has none.
pub open spec fn only_child(recs: Seq<Record>, v: usize) -> usize {
    if recs[v as int].left != 0 {
        recs[v as int].left
    } else {
        recs[v as int].right
    }
}

/// The vacant record that a removal leaves behind.
pub open spec fn cleared() -> Record {
    Record {
        color: Color::Black,
        parent: 0,
        left: 0,
        right: 0,
        quantity: 0,
        price: 0,
        time: 0,
        order_id: 0,
        dirty: true,
    }
}

/// The store after `v`, which has at most one child, left the tree: its
/// child, if any, took its place under its parent, and its slot is vacant.
pub open spec fn without(recs: Seq<Record>, v: usize) -> Seq<Record> {
    let c = only_child(recs, v);
    let q = recs[v as int].parent;
    let r1 = with_child(recs, q, v, c);
    let r2 = if c != 0 {
        r1.update(c as int, (Record { parent: q, dirty: true, ..r1[c as int] }))
    } else {
        r1
    };
    r2.update(v as int, cleared())
}

/// The list never descends among the records other than `x`.
pub open spec fn sorted_but(recs: Seq<Record>, order: Seq<usize>, x: usize) -> bool {
    forall|i: int, j: int|
        0 <= i < j < order.len() && order[i] != x && order[j] != x ==> !key_gt(
            #[trigger] recs[order[i] as int],
            #[trigger] recs[order[j] as int],
        )
}

/// Each slot is in order after a record left the tree.
#[verifier::rlimit(100)]
proof fn lemma_without_slot(recs: Seq<Record>, s: Shape, v: usize, a: int)
    requires
        linked(recs, s),
        live(s, v as int),
        recs[v as int].left == 0 || recs[v as int].right == 0,
        0 < a < recs.len(),
    ensures
        slot_ok(without(recs, v), shape_without(s, v, s.pos[v as int]), a),
{
    let c = only_child(recs, v);
    let q = recs[v as int].parent;
    assert(slot_ok(recs, s, v as int));
    if q != 0 {
        assert(slot_ok(recs, s, q as int));
    }
    if c != 0 {
        assert(slot_ok(recs, s, c as int));
    }
    assert(slot_ok(recs, s, a));
    let ra = recs[a];
    if s.pos[a] >= 0 {
        assert(s.order[s.pos[a]] == a);
        if ra.left != 0 {
            assert(slot_ok(recs, s, ra.left as int));
        }
        if ra.right != 0 {
            assert(slot_ok(recs, s, ra.right as int));
        }
        if ra.parent != 0 {
            assert(slot_ok(recs, s, ra.parent as int));
        }
    }
}

/// Taking a record with at most one child out of the tree keeps the links
/// consistent.
pub proof fn lemma_without(recs: Seq<Record>, s: Shape, v: usize)
    requires
        linked(recs, s),
        live(s, v as int),
        recs[v as int].left == 0 || recs[v as int].right == 0,
    ensures
        linked(without(recs, v), shape_without(s, v, s.pos[v as int])),
{
    let new = without(recs, v);
    let k = s.pos[v as int];
    let s2 = shape_without(s, v, k);
    let c = only_child(recs, v);
    let q = recs[v as int].parent;
    assert(slot_ok(recs, s, v as int));
    if q != 0 {
        assert(slot_ok(recs, s, q as int));
    }
    if c != 0 {
        assert(slot_ok(recs, s, c as int));
    }
    if recs[0].right != 0 {
        assert(slot_ok(recs, s, recs[0].right as int));
    }
    assert(anchored(new, s2));
    assert forall|a: int| 0 < a < new.len() implies #[trigger] slot_ok(new, s2, a) by {
        lemma_without_slot(recs, s, v, a);
    }
    assert forall|i: int| 0 <= i < s2.order.len() implies 0 < (#[trigger] s2.order[i]) < new.len()
        && s2.pos[s2.order[i] as int] == i by {
        if i < k {
            assert(s2.order[i] == s.order[i]);
            assert(0 < s.order[i] < recs.len());
        } else {
            assert(s2.order[i] == s.order[i + 1]);
            assert(0 < s.order[i + 1] < recs.len());
        }
    }
}

/// Once `v` has left, the list never descends.
pub proof fn lemma_without_sorted(recs: Seq<Record>, s: Shape, v: usize)
    requires
        linked(recs, s),
        live(s, v as int),
        recs[v as int].left == 0 || recs[v as int].right == 0,
        sorted_but(recs, s.order, v),
    ensures
        sorted(without(recs, v), s.order.remove(s.pos[v as int])),
{
    let new = without(recs, v);
    let k = s.pos[v as int];
    let o2 = s.order.remove(k);
    assert(slot_ok(recs, s, v as int));
    assert forall|i: int| 0 <= i < o2.len() implies {
        let j = if i < k {
            i
        } else {
            i + 1
        };
        &&& o2[i] == s.order[j]
        &&& o2[i] != v
        &&& 0 < o2[i] < recs.len()
        &&& (#[trigger] new[o2[i] as int]).price == recs[s.order[j] as int].price
        &&& new[o2[i] as int].time == recs[s.order[j] as int].time
    } by {
        let j = if i < k {
            i
        } else {
            i + 1
        };
        assert(0 < s.order[j] < recs.len());
        assert(s.pos[s.order[j] as int] == j);
    }
    assert forall|i: int, j: int| 0 <= i < j < o2.len() implies !key_gt(
        #[trigger] new[o2[i] as int],
        #[trigger] new[o2[j] as int],
    ) by {
        let i0 = if i < k {
            i
        } else {
            i + 1
        };
        let j0 = if j < k {
            j
        } else {
            j + 1
        };
        assert(!key_gt(recs[s.order[i0] as int], recs[s.order[j0] as int]));
    }
}

/// The black height of the link `c` when `n` counts as absent.
pub open spec fn link_height_without(bh: Seq<nat>, c: usize, n: usize) -> nat {
    if c == 0 || c == n {
        0
    } else {
        bh[c as int]
    }
}

/// `height_ok` for `a`, with `n` counted as absent.
pub open spec fn height_ok_without(recs: Seq<Record>, bh: Seq<nat>, a: int, n: usize) -> bool {
    let r = recs[a];
    &&& link_height_without(bh, r.left, n) == link_height_without(bh, r.right, n)
    &&& bh[a] == link_height_without(bh, r.left, n) + (if r.color == Color::Red {
        0nat
    } else {
        1nat
    })
}

/// The colours are those of a red-black tree once the leaf `n` is gone.
pub open spec fn colored_without(recs: Seq<Record>, bh: Seq<nat>, n: usize) -> bool {
    &&& !is_red(recs, recs[0].right) || recs[0].right == n
    &&& bh.len() == recs.len()
    &&& forall|a: int|
        0 < a < recs.len() && a != n ==> #[trigger] height_ok_without(recs, bh, a, n)
    &&& reds_ok(recs)
}

/// Removing a leaf that the colours no longer count leaves a red-black
/// tree.
pub proof fn lemma_without_leaf_colors(recs: Seq<Record>, s: Shape, v: usize, bh: Seq<nat>)
    requires
        linked(recs, s),
        live(s, v as int),
        recs[v as int].left == 0,
        recs[v as int].right == 0,
        colored_without(recs, bh, v),
    ensures
        colored(without(recs, v), bh.update(v as int, 1)),
{
    let new = without(recs, v);
    let bh2 = bh.update(v as int, 1);
    let q = recs[v as int].parent;
    assert(slot_ok(recs, s, v as int));
    if q != 0 {
        assert(slot_ok(recs, s, q as int));
    }
    assert forall|a: int| 0 < a < new.len() implies #[trigger] height_ok(new, bh2, a) by {
        assert(slot_ok(recs, s, a));
        if a != v {
            assert(height_ok_without(recs, bh, a, v));
        }
    }
    assert forall|a: int| 0 < a < new.len() implies #[trigger] red_ok(new, a) by {
        assert(slot_ok(recs, s, a));
        assert(red_ok(recs, a));
    }
}

/// A red leaf, or a leaf that is the root, does not count for the colours.
pub proof fn lemma_free_leaf(recs: Seq<Record>, s: Shape, v: usize, bh: Seq<nat>)
    requires
        linked(recs, s),
        live(s, v as int),
        recs[v as int].left == 0,
        recs[v as int].right == 0,
        recs[v as int].color == Color::Red || recs[v as int].parent == 0,
        colored(recs, bh),
    ensures
        colored_without(recs, bh, v),
{
    assert(slot_ok(recs, s, v as int));
    assert(height_ok(recs, bh, v as int));
    assert forall|a: int| 0 < a < recs.len() && a != v implies #[trigger] height_ok_without(
        recs,
        bh,
        a,
        v,
    ) by {
        assert(slot_ok(recs, s, a));
        assert(height_ok(recs, bh, a));
    }
}

/// The store after the only child of `v` turned black and took the place of
/// `v` is a red-black tree if it was one before.
pub proof fn lemma_without_parent_colors(recs: Seq<Record>, s: Shape, v: usize, bh: Seq<nat>)
    requires
        linked(recs, s),
        live(s, v as int),
        (recs[v as int].left == 0) != (recs[v as int].right == 0),
        colored(recs, bh),
    ensures
        ({
            let c = only_child(recs, v);
            let r1 = recs.update(
                c as int,
                (Record { color: Color::Black, dirty: true, ..recs[c as int] }),
            );
            colored(without(r1, v), bh.update(c as int, 1).update(v as int, 1))
        }),
{
    let c = only_child(recs, v);
    let r1 = recs.update(c as int, (Record { color: Color::Black, dirty: true, ..recs[c as int] }));
    let new = without(r1, v);
    let bh2 = bh.update(c as int, 1).update(v as int, 1);
    let q = recs[v as int].parent;
    assert(slot_ok(recs, s, v as int));
    assert(slot_ok(recs, s, c as int));
    if q != 0 {
        assert(slot_ok(recs, s, q as int));
    }
    assert(height_ok(recs, bh, v as int));
    assert(height_ok(recs, bh, c as int));
    assert(red_ok(recs, v as int));
    assert(red_ok(recs, c as int));
    assert forall|a: int| 0 < a < new.len() implies #[trigger] height_ok(new, bh2, a) by {
        assert(slot_ok(recs, s, a));
        assert(height_ok(recs, bh, a));
    }
    assert forall|a: int| 0 < a < new.len() implies #[trigger] red_ok(new, a) by {
        assert(slot_ok(recs, s, a));
        assert(red_ok(recs, a));
    }
}

/// Taking a leaf out of the tree makes no red record the child of a red
/// one.
pub proof fn lemma_without_red_safe(recs: Seq<Record>, s: Shape, v: usize)
    requires
        linked(recs, s),
        live(s, v as int),
        recs[v as int].left == 0,
        recs[v as int].right == 0,
        red_safe(recs),
    ensures
        red_safe(without(recs, v)),
{
    let new = without(recs, v);
    let q = recs[v as int].parent;
    assert(slot_ok(recs, s, v as int));
    if q != 0 {
        assert(slot_ok(recs, s, q as int));
    }
    if recs[0].right != 0 {
        assert(slot_ok(recs, s, recs[0].right as int));
    }
    assert forall|a: int| 0 < a < new.len() implies #[trigger] red_ok(new, a) by {
        assert(slot_ok(recs, s, a));
        assert(red_ok(recs, a));
    }
}

impl OrderBook {
    /// Takes `v`, which has at most one child, out of the tree and clears
    /// its slot.
    pub(crate) fn unlink(&mut self, v: usize, Ghost(s): Ghost<Shape>)
        requires
            linked(old(self)@, s),
            live(s, v as int),
            old(self)@[v as int].left == 0 || old(self)@[v as int].right == 0,
        ensures
            final(self)@ == without(old(self)@, v),
            linked(final(self)@, shape_without(s, v, s.pos[v as int])),
    {
        proof {
            assert(slot_ok(self@, s, v as int));
        }
        let r = self.rec(v);
        let c = if r.left != 0 {
            r.left
        } else {
            r.right
        };
        let q = r.parent;
        self.set_child(q, v, c);
        if c != 0 {
            proof {
                assert(slot_ok(old(self)@, s, c as int));
            }
            self.set_parent(c, q);
        }
        self.write(v, Record::empty(true));
        proof {
            assert(self@ =~= without(old(self)@, v));
            lemma_without(old(self)@, s, v);
        }
    }
}

} // verus!
