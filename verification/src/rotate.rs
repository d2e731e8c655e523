//! Tree rotations.

use vstd::prelude::*;
use crate::book::{with_child, OrderBook};
use crate::delete::lemma_live_contains;
use crate::record::{Address, Record};
use crate::shape::{
    anchored, lemma_inorder, lemma_sorted_same_orders, linked, live, same_colors, same_orders,
    slot_ok, structured, tracked_from, Shape,
};

verus! {

/// The store after a left rotation around `n`: the right child of `n` takes
/// its place, `n` becomes that child's left child, and the child's former
/// left subtree becomes the right subtree of `n`.
pub open spec fn rotated_left(recs: Seq<Record>, n: usize) -> Seq<Record> {
    let r = recs[n as int].right;
    let p = recs[n as int].parent;
    let rl = recs[r as int].left;
    let s1 = with_child(recs, p, n, r);
    let s2 = if rl != 0 {
        s1.update(rl as int, (Record { parent: n, dirty: true, ..s1[rl as int] }))
    } else {
        s1
    };
    let s3 = s2.update(n as int, (Record { right: rl, parent: r, dirty: true, ..s2[n as int] }));
    s3.update(r as int, (Record { parent: p, left: n, dirty: true, ..s3[r as int] }))
}

/// The store after a right rotation around `n`, the mirror image of
/// `rotated_left`.
pub open spec fn rotated_right(recs: Seq<Record>, n: usize) -> Seq<Record> {
    let l = recs[n as int].left;
    let p = recs[n as int].parent;
    let lr = recs[l as int].right;
    let s1 = with_child(recs, p, n, l);
    let s2 = if lr != 0 {
        s1.update(lr as int, (Record { parent: n, dirty: true, ..s1[lr as int] }))
    } else {
        s1
    };
    let s3 = s2.update(n as int, (Record { left: lr, parent: l, dirty: true, ..s2[n as int] }));
    s3.update(l as int, (Record { parent: p, right: n, dirty: true, ..s3[l as int] }))
}

/// The shape of the tree after a left rotation around `n`.
pub open spec fn shape_left(recs: Seq<Record>, s: Shape, n: usize) -> Shape {
    let r = recs[n as int].right;
    Shape { hi: s.hi.update(n as int, s.pos[r as int]), lo: s.lo.update(r as int, s.lo[n as int]), ..s }
}

/// The shape of the tree after a right rotation around `n`.
pub open spec fn shape_right(recs: Seq<Record>, s: Shape, n: usize) -> Shape {
    let l = recs[n as int].left;
    Shape { lo: s.lo.update(n as int, s.pos[l as int] + 1), hi: s.hi.update(l as int, s.hi[n as int]), ..s }
}

/// What a left rotation around `n` leaves at each address.
pub proof fn lemma_rotated_left_at(recs: Seq<Record>, s: Shape, n: usize)
    requires
        linked(recs, s),
        live(s, n as int),
        recs[n as int].right != 0,
    ensures
        ({
            let new = rotated_left(recs, n);
            let r = recs[n as int].right;
            let p = recs[n as int].parent;
            let rl = recs[r as int].left;
            &&& new.len() == recs.len()
            &&& n != r && n != rl && n != p && r != p && r != rl && r != 0 && n != 0
            &&& rl != 0 ==> rl != p
            &&& live(s, r as int)
            &&& new[n as int] == (Record { right: rl, parent: r, dirty: true, ..recs[n as int] })
            &&& new[r as int] == (Record { parent: p, left: n, dirty: true, ..recs[r as int] })
            &&& rl != 0 ==> new[rl as int] == (Record { parent: n, dirty: true, ..recs[rl as int] })
            &&& p != 0 && recs[p as int].left == n ==> new[p as int] == (Record {
                left: r,
                dirty: true,
                ..recs[p as int]
            })
            &&& !(p != 0 && recs[p as int].left == n) ==> new[p as int] == (Record {
                right: r,
                dirty: true,
                ..recs[p as int]
            })
            &&& forall|a: int|
                0 <= a < new.len() && a != n && a != r && (rl == 0 || a != rl) && a != p
                    ==> #[trigger] new[a]
                    == recs[a]
        }),
{
    let r = recs[n as int].right;
    let p = recs[n as int].parent;
    let rl = recs[r as int].left;
    assert(slot_ok(recs, s, n as int));
    assert(slot_ok(recs, s, r as int));
    if p != 0 {
        assert(slot_ok(recs, s, p as int));
    }
    if rl != 0 {
        assert(slot_ok(recs, s, rl as int));
    }
}

/// Each slot is in order after a left rotation.
#[verifier::rlimit(80)]
proof fn lemma_rotated_left_slot(recs: Seq<Record>, s: Shape, n: usize, a: int)
    requires
        linked(recs, s),
        live(s, n as int),
        recs[n as int].right != 0,
        0 < a < recs.len(),
    ensures
        slot_ok(rotated_left(recs, n), shape_left(recs, s, n), a),
{
    lemma_rotated_left_at(recs, s, n);
    let r = recs[n as int].right;
    let p = recs[n as int].parent;
    let rl = recs[r as int].left;
    assert(slot_ok(recs, s, n as int));
    assert(slot_ok(recs, s, r as int));
    if p != 0 {
        assert(slot_ok(recs, s, p as int));
    }
    if rl != 0 {
        assert(slot_ok(recs, s, rl as int));
    }
    assert(slot_ok(recs, s, a));
    let ra = recs[a];
    if ra.left != 0 {
        assert(slot_ok(recs, s, ra.left as int));
    }
    if ra.right != 0 {
        assert(slot_ok(recs, s, ra.right as int));
    }
    if ra.parent != 0 {
        assert(slot_ok(recs, s, ra.parent as int));
    }
}

/// A left rotation keeps the links consistent.
pub proof fn lemma_rotated_left(recs: Seq<Record>, s: Shape, n: usize)
    requires
        linked(recs, s),
        live(s, n as int),
        recs[n as int].right != 0,
    ensures
        linked(rotated_left(recs, n), shape_left(recs, s, n)),
{
    let new = rotated_left(recs, n);
    let s2 = shape_left(recs, s, n);
    lemma_rotated_left_at(recs, s, n);
    assert(slot_ok(recs, s, n as int));
    assert(slot_ok(recs, s, recs[n as int].right as int));
    assert(anchored(new, s2));
    assert forall|a: int| 0 < a < new.len() implies #[trigger] slot_ok(new, s2, a) by {
        lemma_rotated_left_slot(recs, s, n, a);
    }
    assert forall|i: int| 0 <= i < s2.order.len() implies 0 < (#[trigger] s2.order[i]) < new.len()
        && s2.pos[s2.order[i] as int] == i by {
        assert(0 < s.order[i] < recs.len());
    }
}

/// What a right rotation around `n` leaves at each address.
pub proof fn lemma_rotated_right_at(recs: Seq<Record>, s: Shape, n: usize)
    requires
        linked(recs, s),
        live(s, n as int),
        recs[n as int].left != 0,
    ensures
        ({
            let new = rotated_right(recs, n);
            let l = recs[n as int].left;
            let p = recs[n as int].parent;
            let lr = recs[l as int].right;
            &&& new.len() == recs.len()
            &&& n != l && n != lr && n != p && l != p && l != lr && l != 0 && n != 0
            &&& lr != 0 ==> lr != p
            &&& live(s, l as int)
            &&& new[n as int] == (Record { left: lr, parent: l, dirty: true, ..recs[n as int] })
            &&& new[l as int] == (Record { parent: p, right: n, dirty: true, ..recs[l as int] })
            &&& lr != 0 ==> new[lr as int] == (Record { parent: n, dirty: true, ..recs[lr as int] })
            &&& p != 0 && recs[p as int].left == n ==> new[p as int] == (Record {
                left: l,
                dirty: true,
                ..recs[p as int]
            })
            &&& !(p != 0 && recs[p as int].left == n) ==> new[p as int] == (Record {
                right: l,
                dirty: true,
                ..recs[p as int]
            })
            &&& forall|a: int|
                0 <= a < new.len() && a != n && a != l && (lr == 0 || a != lr) && a != p
                    ==> #[trigger] new[a]
                    == recs[a]
        }),
{
    let l = recs[n as int].left;
    let p = recs[n as int].parent;
    let lr = recs[l as int].right;
    assert(slot_ok(recs, s, n as int));
    assert(slot_ok(recs, s, l as int));
    if p != 0 {
        assert(slot_ok(recs, s, p as int));
    }
    if lr != 0 {
        assert(slot_ok(recs, s, lr as int));
    }
}

/// Each slot is in order after a right rotation.
#[verifier::rlimit(80)]
proof fn lemma_rotated_right_slot(recs: Seq<Record>, s: Shape, n: usize, a: int)
    requires
        linked(recs, s),
        live(s, n as int),
        recs[n as int].left != 0,
        0 < a < recs.len(),
    ensures
        slot_ok(rotated_right(recs, n), shape_right(recs, s, n), a),
{
    lemma_rotated_right_at(recs, s, n);
    let l = recs[n as int].left;
    let p = recs[n as int].parent;
    let lr = recs[l as int].right;
    assert(slot_ok(recs, s, n as int));
    assert(slot_ok(recs, s, l as int));
    if p != 0 {
        assert(slot_ok(recs, s, p as int));
    }
    if lr != 0 {
        assert(slot_ok(recs, s, lr as int));
    }
    assert(slot_ok(recs, s, a));
    let ra = recs[a];
    if ra.right != 0 {
        assert(slot_ok(recs, s, ra.right as int));
    }
    if ra.left != 0 {
        assert(slot_ok(recs, s, ra.left as int));
    }
    if ra.parent != 0 {
        assert(slot_ok(recs, s, ra.parent as int));
    }
}

/// A right rotation keeps the links consistent.
pub proof fn lemma_rotated_right(recs: Seq<Record>, s: Shape, n: usize)
    requires
        linked(recs, s),
        live(s, n as int),
        recs[n as int].left != 0,
    ensures
        linked(rotated_right(recs, n), shape_right(recs, s, n)),
{
    let new = rotated_right(recs, n);
    let s2 = shape_right(recs, s, n);
    lemma_rotated_right_at(recs, s, n);
    assert(slot_ok(recs, s, n as int));
    assert(slot_ok(recs, s, recs[n as int].left as int));
    assert(anchored(new, s2));
    assert forall|a: int| 0 < a < new.len() implies #[trigger] slot_ok(new, s2, a) by {
        lemma_rotated_right_slot(recs, s, n, a);
    }
    assert forall|i: int| 0 <= i < s2.order.len() implies 0 < (#[trigger] s2.order[i]) < new.len()
        && s2.pos[s2.order[i] as int] == i by {
        assert(0 < s.order[i] < recs.len());
    }
}

/// A left rotation changes links only: colours and orders stay, and every
/// record it writes is flagged.
pub proof fn lemma_rotated_left_keeps(recs: Seq<Record>, s: Shape, n: usize)
    requires
        linked(recs, s),
        live(s, n as int),
        recs[n as int].right != 0,
    ensures
        same_orders(recs, rotated_left(recs, n)),
        same_colors(recs, rotated_left(recs, n)),
        tracked_from(recs, rotated_left(recs, n)),
{
    lemma_rotated_left_at(recs, s, n);
    let new = rotated_left(recs, n);
    let r = recs[n as int].right;
    let p = recs[n as int].parent;
    let rl = recs[r as int].left;
    assert forall|a: int| 0 <= a < new.len() implies (#[trigger] new[a]).color == recs[a].color
        && new[a].quantity == recs[a].quantity && new[a].price == recs[a].price && new[a].time
        == recs[a].time && new[a].order_id == recs[a].order_id && (new[a].dirty || new[a]
        == recs[a]) by {
        if a != n && a != r && (rl == 0 || a != rl) && a != p {
            assert(new[a] == recs[a]);
        }
    }
}

/// A right rotation changes links only: colours and orders stay, and every
/// record it writes is flagged.
pub proof fn lemma_rotated_right_keeps(recs: Seq<Record>, s: Shape, n: usize)
    requires
        linked(recs, s),
        live(s, n as int),
        recs[n as int].left != 0,
    ensures
        same_orders(recs, rotated_right(recs, n)),
        same_colors(recs, rotated_right(recs, n)),
        tracked_from(recs, rotated_right(recs, n)),
{
    lemma_rotated_right_at(recs, s, n);
    let new = rotated_right(recs, n);
    let l = recs[n as int].left;
    let p = recs[n as int].parent;
    let lr = recs[l as int].right;
    assert forall|a: int| 0 <= a < new.len() implies (#[trigger] new[a]).color == recs[a].color
        && new[a].quantity == recs[a].quantity && new[a].price == recs[a].price && new[a].time
        == recs[a].time && new[a].order_id == recs[a].order_id && (new[a].dirty || new[a]
        == recs[a]) by {
        if a != n && a != l && (lr == 0 || a != lr) && a != p {
            assert(new[a] == recs[a]);
        }
    }
}

impl OrderBook {
    /// Rotates the tree left around `n`, whose right child takes its place.
    pub(crate) fn rotate_left_in(&mut self, n: usize, Ghost(s): Ghost<Shape>)
        requires
            linked(old(self)@, s),
            live(s, n as int),
            old(self)@[n as int].right != 0,
        ensures
            final(self)@ == rotated_left(old(self)@, n),
            linked(final(self)@, shape_left(old(self)@, s, n)),
    {
        proof {
            assert(slot_ok(self@, s, n as int));
        }
        let r = self.rec(n).right;
        let p = self.rec(n).parent;
        proof {
            assert(slot_ok(self@, s, r as int));
        }
        let rl = self.rec(r).left;
        self.set_child(p, n, r);
        if rl != 0 {
            self.set_parent(rl, n);
        }
        self.set_right(n, rl);
        self.set_parent(n, r);
        self.set_parent(r, p);
        self.set_left(r, n);
        proof {
            assert(self@ =~= rotated_left(old(self)@, n));
            lemma_rotated_left(old(self)@, s, n);
        }
    }

    /// Rotates the tree right around `n`, whose left child takes its place.
    pub(crate) fn rotate_right_in(&mut self, n: usize, Ghost(s): Ghost<Shape>)
        requires
            linked(old(self)@, s),
            live(s, n as int),
            old(self)@[n as int].left != 0,
        ensures
            final(self)@ == rotated_right(old(self)@, n),
            linked(final(self)@, shape_right(old(self)@, s, n)),
    {
        proof {
            assert(slot_ok(self@, s, n as int));
        }
        let l = self.rec(n).left;
        let p = self.rec(n).parent;
        proof {
            assert(slot_ok(self@, s, l as int));
        }
        let lr = self.rec(l).right;
        self.set_child(p, n, l);
        if lr != 0 {
            self.set_parent(lr, n);
        }
        self.set_left(n, lr);
        self.set_parent(n, l);
        self.set_parent(l, p);
        self.set_right(l, n);
        proof {
            assert(self@ =~= rotated_right(old(self)@, n));
            lemma_rotated_right(old(self)@, s, n);
        }
    }

    /// Rotates the tree left around `pivot`: its right child takes its
    /// place under its parent, `pivot` becomes that child's left child, and
    /// the child's former left subtree becomes the right subtree of
    /// `pivot`. The in-order listing stays as it is; every record written
    /// is flagged.
    pub fn rotate_left(&mut self, pivot: Address)
        requires
            old(self).wf(),
            old(self).contains(pivot),
            old(self)@[pivot as int].right != 0,
        ensures
            final(self)@ == rotated_left(old(self)@, pivot),
            final(self).wf(),
            final(self).inorder() == old(self).inorder(),
            same_orders(old(self)@, final(self)@),
            same_colors(old(self)@, final(self)@),
            tracked_from(old(self)@, final(self)@),
    {
        let ghost s = choose|s: Shape| structured(self@, s);
        proof {
            lemma_inorder(self@, s);
            lemma_live_contains(self@, s, pivot);
        }
        self.rotate_left_in(pivot, Ghost(s));
        proof {
            let s2 = shape_left(old(self)@, s, pivot);
            lemma_rotated_left_keeps(old(self)@, s, pivot);
            assert forall|i: int| 0 <= i < s.order.len() implies (#[trigger] s.order[i])
                < old(self)@.len() by {}
            lemma_sorted_same_orders(old(self)@, self@, s.order);
            assert(structured(self@, s2));
            lemma_inorder(self@, s2);
        }
    }

    /// Rotates the tree right around `pivot`: its left child takes its
    /// place under its parent, `pivot` becomes that child's right child, and
    /// the child's former right subtree becomes the left subtree of
    /// `pivot`. The in-order listing stays as it is; every record written
    /// is flagged.
    pub fn rotate_right(&mut self, pivot: Address)
        requires
            old(self).wf(),
            old(self).contains(pivot),
            old(self)@[pivot as int].left != 0,
        ensures
            final(self)@ == rotated_right(old(self)@, pivot),
            final(self).wf(),
            final(self).inorder() == old(self).inorder(),
            same_orders(old(self)@, final(self)@),
            same_colors(old(self)@, final(self)@),
            tracked_from(old(self)@, final(self)@),
    {
        let ghost s = choose|s: Shape| structured(self@, s);
        proof {
            lemma_inorder(self@, s);
            lemma_live_contains(self@, s, pivot);
        }
        self.rotate_right_in(pivot, Ghost(s));
        proof {
            let s2 = shape_right(old(self)@, s, pivot);
            lemma_rotated_right_keeps(old(self)@, s, pivot);
            assert forall|i: int| 0 <= i < s.order.len() implies (#[trigger] s.order[i])
                < old(self)@.len() by {}
            lemma_sorted_same_orders(old(self)@, self@, s.order);
            assert(structured(self@, s2));
            lemma_inorder(self@, s2);
        }
    }
}

} // verus!
