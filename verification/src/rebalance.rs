//! Restoring the colours before a black leaf leaves the tree.

use vstd::prelude::*;
use crate::book::OrderBook;
use crate::insert::{lemma_recolored, recolored};
use crate::record::{Color, Record};
use crate::remove::{colored_without, height_ok_without};
use crate::rotate::{
    lemma_rotated_left_at, lemma_rotated_left_keeps, lemma_rotated_right_at,
    lemma_rotated_right_keeps, rotated_left, rotated_right, shape_left, shape_right,
};
use crate::shape::{
    colored, height_ok, is_red, lemma_same_orders_trans, lemma_tracked_trans, linked, live,
    red_ok, red_safe, same_orders, slot_ok, tracked_from, Shape,
};

verus! {

/// The colours are those of a red-black tree in which `n` is a black leaf.
pub open spec fn short_at(recs: Seq<Record>, bh: Seq<nat>, n: usize) -> bool {
    &&& colored(recs, bh)
    &&& recs[n as int].color == Color::Black
    &&& recs[n as int].left == 0
    &&& recs[n as int].right == 0
}

/// The store after the sibling `sib` turned red and the parent `p` black.
pub open spec fn d4_store(recs: Seq<Record>, p: usize, sib: usize) -> Seq<Record> {
    recolored(recolored(recs, sib, Color::Red), p, Color::Black)
}

/// The store after the red sibling `sib` of a left child of `p` was
/// lifted above `p`: rotation around `p`, `p` red, `sib` black.
pub open spec fn d3_left_store(recs: Seq<Record>, p: usize, sib: usize) -> Seq<Record> {
    recolored(recolored(rotated_left(recs, p), p, Color::Red), sib, Color::Black)
}

/// The store after the red left child `near` of the sibling `sib` was
/// lifted above it: rotation around `sib`, `near` black, `sib` red.
pub open spec fn d5_left_store(recs: Seq<Record>, sib: usize, near: usize) -> Seq<Record> {
    recolored(recolored(rotated_right(recs, sib), near, Color::Black), sib, Color::Red)
}

/// The store after the sibling `sib` of a left child of `p` was lifted
/// above `p`: rotation around `p`, `sib` in the colour of `p`, its right
/// child `far` and `p` black.
pub open spec fn d6_left_store(recs: Seq<Record>, p: usize, sib: usize, far: usize) -> Seq<
    Record,
> {
    recolored(
        recolored(
            recolored(rotated_left(recs, p), sib, recs[p as int].color),
            far,
            Color::Black,
        ),
        p,
        Color::Black,
    )
}

/// The store after the colours were restored around the black leaf `n`,
/// the left child of `p`. A red sibling is first lifted above the parent.
/// Then the sibling's right child, if red, decides for a rotation around
/// the parent; else its left child, if red, is lifted above the sibling
/// first; else the sibling turns red and the parent black.
pub open spec fn rebalanced_left(recs: Seq<Record>, n: usize, p: usize) -> Seq<Record> {
    let s0 = recs[p as int].right;
    let r1 = if recs[s0 as int].color == Color::Red {
        d3_left_store(recs, p, s0)
    } else {
        recs
    };
    let sib = r1[p as int].right;
    let far = r1[sib as int].right;
    let near = r1[sib as int].left;
    if is_red(r1, far) {
        d6_left_store(r1, p, sib, far)
    } else if is_red(r1, near) {
        d6_left_store(d5_left_store(r1, sib, near), p, near, sib)
    } else {
        d4_store(r1, p, sib)
    }
}

/// The store after the red sibling `sib` of a right child of `p` was
/// lifted above `p`: rotation around `p`, `p` red, `sib` black.
pub open spec fn d3_right_store(recs: Seq<Record>, p: usize, sib: usize) -> Seq<Record> {
    recolored(recolored(rotated_right(recs, p), p, Color::Red), sib, Color::Black)
}

/// The store after the red right child `near` of the sibling `sib` was
/// lifted above it: rotation around `sib`, `near` black, `sib` red.
pub open spec fn d5_right_store(recs: Seq<Record>, sib: usize, near: usize) -> Seq<Record> {
    recolored(recolored(rotated_left(recs, sib), near, Color::Black), sib, Color::Red)
}

/// The store after the sibling `sib` of a right child of `p` was lifted
/// above `p`: rotation around `p`, `sib` in the colour of `p`, its left
/// child `far` and `p` black.
pub open spec fn d6_right_store(recs: Seq<Record>, p: usize, sib: usize, far: usize) -> Seq<
    Record,
> {
    recolored(
        recolored(
            recolored(rotated_right(recs, p), sib, recs[p as int].color),
            far,
            Color::Black,
        ),
        p,
        Color::Black,
    )
}

/// The store after the colours were restored around the black leaf `n`,
/// the right child of `p`. A red sibling is first lifted above the parent.
/// Then the sibling's left child, if red, decides for a rotation around
/// the parent; else its right child, if red, is lifted above the sibling
/// first; else the sibling turns red and the parent black.
pub open spec fn rebalanced_right(recs: Seq<Record>, n: usize, p: usize) -> Seq<Record> {
    let s0 = recs[p as int].left;
    let r1 = if recs[s0 as int].color == Color::Red {
        d3_right_store(recs, p, s0)
    } else {
        recs
    };
    let sib = r1[p as int].left;
    let far = r1[sib as int].left;
    let near = r1[sib as int].right;
    if is_red(r1, far) {
        d6_right_store(r1, p, sib, far)
    } else if is_red(r1, near) {
        d6_right_store(d5_right_store(r1, sib, near), p, near, sib)
    } else {
        d4_store(r1, p, sib)
    }
}

/// The store after the colours were restored around the black leaf `n`.
pub open spec fn rebalanced(recs: Seq<Record>, n: usize) -> Seq<Record> {
    let p = recs[n as int].parent;
    if recs[p as int].left == n {
        rebalanced_left(recs, n, p)
    } else {
        rebalanced_right(recs, n, p)
    }
}

/// A change of colour keeps every order and flags the record.
pub proof fn lemma_recolored_keeps(recs: Seq<Record>, a: usize, c: Color)
    requires
        a < recs.len(),
    ensures
        same_orders(recs, recolored(recs, a, c)),
        tracked_from(recs, recolored(recs, a, c)),
{
}

impl OrderBook {
    /// The sibling of `n` has no red child: the sibling turns red and the
    /// parent black.
    pub(crate) fn d4(
        &mut self,
        n: usize,
        p: usize,
        sib: usize,
        Ghost(s): Ghost<Shape>,
        Ghost(bh): Ghost<Seq<nat>>,
        Ghost(bal): Ghost<bool>,
    ) -> (out: Ghost<Seq<nat>>)
        requires
            linked(old(self)@, s),
            live(s, n as int),
            old(self)@[n as int].parent == p,
            p != 0,
            sib != 0,
            sib != n,
            old(self)@[p as int].left == sib || old(self)@[p as int].right == sib,
            !is_red(old(self)@, old(self)@[sib as int].left),
            !is_red(old(self)@, old(self)@[sib as int].right),
            bal ==> short_at(old(self)@, bh, n) && old(self)@[sib as int].color == Color::Black,
        ensures
            linked(final(self)@, s),
            same_orders(old(self)@, final(self)@),
            tracked_from(old(self)@, final(self)@),
            final(self)@[n as int] == old(self)@[n as int],
            final(self)@ == d4_store(old(self)@, p, sib),
            bal && (old(self)@[p as int].color == Color::Red || old(self)@[p as int].parent == 0)
                ==> colored_without(final(self)@, out@, n),
            bal ==> red_safe(final(self)@),
    {
        let ghost r0 = self@;
        proof {
            assert(slot_ok(r0, s, n as int));
            assert(slot_ok(r0, s, p as int));
            assert(slot_ok(r0, s, sib as int));
        }
        self.set_color(sib, Color::Red);
        let ghost r1 = self@;
        self.set_color(p, Color::Black);
        let ghost bh2 = bh.update(sib as int, 0).update(p as int, 1);
        proof {
            let new = self@;
            lemma_recolored(r0, s, sib, Color::Red);
            lemma_recolored(r1, s, p, Color::Black);
            lemma_recolored_keeps(r0, sib, Color::Red);
            lemma_recolored_keeps(r1, p, Color::Black);
            lemma_same_orders_trans(r0, r1, new);
            lemma_tracked_trans(r0, r1, new);
            if bal {
                assert(red_ok(r0, p as int));
                assert forall|a: int| 0 < a < new.len() implies #[trigger] red_ok(new, a) by {
                    assert(red_ok(r0, a));
                    assert(slot_ok(r0, s, a));
                }
            }
            if bal && (r0[p as int].color == Color::Red || r0[p as int].parent == 0) {
                assert(height_ok(r0, bh, n as int));
                assert(height_ok(r0, bh, p as int));
                assert(height_ok(r0, bh, sib as int));
                assert(red_ok(r0, p as int));
                assert forall|a: int| 0 < a < new.len() && a != n implies
                    #[trigger] height_ok_without(new, bh2, a, n) by {
                    assert(height_ok(r0, bh, a));
                    assert(slot_ok(r0, s, a));
                }
                assert forall|a: int| 0 < a < new.len() implies #[trigger] red_ok(new, a) by {
                    assert(red_ok(r0, a));
                    assert(slot_ok(r0, s, a));
                }
            }
        }
        Ghost(bh2)
    }

    /// The sibling of the left child `n` is red: a rotation around the
    /// parent lifts the sibling above it, the parent turns red and the
    /// sibling black. `n` then has the sibling's former left child for a
    /// sibling.
    #[verifier::rlimit(50)]
    pub(crate) fn d3_left(
        &mut self,
        n: usize,
        p: usize,
        sib: usize,
        Ghost(s): Ghost<Shape>,
        Ghost(bh): Ghost<Seq<nat>>,
        Ghost(bal): Ghost<bool>,
    ) -> (out: (Ghost<Shape>, Ghost<Seq<nat>>))
        requires
            linked(old(self)@, s),
            live(s, n as int),
            old(self)@[n as int].parent == p,
            p != 0,
            old(self)@[p as int].left == n,
            old(self)@[p as int].right == sib,
            sib != 0,
            old(self)@[sib as int].left != 0,
            bal ==> short_at(old(self)@, bh, n) && old(self)@[sib as int].color == Color::Red,
        ensures
            linked(final(self)@, out.0@),
            out.0@.order == s.order,
            out.0@.pos == s.pos,
            same_orders(old(self)@, final(self)@),
            tracked_from(old(self)@, final(self)@),
            final(self)@[n as int] == old(self)@[n as int],
            final(self)@[p as int].left == n,
            final(self)@[p as int].right == old(self)@[sib as int].left,
            final(self)@[p as int].color == Color::Red,
            final(self)@[p as int].parent == sib,
            ({
                let c = old(self)@[sib as int].left as int;
                &&& final(self)@[c].left == old(self)@[c].left
                &&& final(self)@[c].right == old(self)@[c].right
            }),
            final(self)@ == d3_left_store(old(self)@, p, sib),
            bal ==> short_at(final(self)@, out.1@, n),
            bal ==> ({
                let c = old(self)@[sib as int].left as int;
                final(self)@[c].color == Color::Black
            }),
    {
        let ghost r0 = self@;
        proof {
            assert(slot_ok(r0, s, n as int));
            assert(slot_ok(r0, s, p as int));
            assert(slot_ok(r0, s, sib as int));
            assert(slot_ok(r0, s, r0[sib as int].left as int));
        }
        self.rotate_left_in(p, Ghost(s));
        let ghost r1 = self@;
        let ghost s1 = shape_left(r0, s, p);
        self.set_color(p, Color::Red);
        let ghost r2 = self@;
        self.set_color(sib, Color::Black);
        let ghost bh2 = bh.update(p as int, (bh[p as int] - 1) as nat).update(
            sib as int,
            bh[sib as int] + 1,
        );
        proof {
            let new = self@;
            lemma_rotated_left_at(r0, s, p);
            lemma_rotated_left_keeps(r0, s, p);
            lemma_recolored(r1, s1, p, Color::Red);
            lemma_recolored(r2, s1, sib, Color::Black);
            lemma_recolored_keeps(r1, p, Color::Red);
            lemma_recolored_keeps(r2, sib, Color::Black);
            lemma_same_orders_trans(r0, r1, r2);
            lemma_same_orders_trans(r0, r2, new);
            lemma_tracked_trans(r0, r1, r2);
            lemma_tracked_trans(r0, r2, new);
            if bal {
                assert(height_ok(r0, bh, n as int));
                assert(height_ok(r0, bh, p as int));
                assert(height_ok(r0, bh, sib as int));
                assert(red_ok(r0, sib as int));
                assert(red_ok(r0, p as int));
                if r0[p as int].parent != 0 {
                    assert(red_ok(r0, r0[p as int].parent as int));
                }
                assert forall|a: int| 0 < a < new.len() implies #[trigger] height_ok(
                    new,
                    bh2,
                    a,
                ) by {
                    assert(height_ok(r0, bh, a));
                    assert(slot_ok(r0, s, a));
                }
                assert forall|a: int| 0 < a < new.len() implies #[trigger] red_ok(new, a) by {
                    assert(red_ok(r0, a));
                    assert(slot_ok(r0, s, a));
                }
                assert(!is_red(new, new[0].right));
            }
        }
        (Ghost(s1), Ghost(bh2))
    }

    /// The sibling of the left child `n` has a red left child and no red
    /// right child: a rotation around the sibling lifts that child above
    /// it; the child turns black and the sibling red.
    #[verifier::rlimit(50)]
    pub(crate) fn d5_left(
        &mut self,
        n: usize,
        p: usize,
        sib: usize,
        near: usize,
        Ghost(s): Ghost<Shape>,
        Ghost(bh): Ghost<Seq<nat>>,
        Ghost(bal): Ghost<bool>,
    ) -> (out: (Ghost<Shape>, Ghost<Seq<nat>>))
        requires
            linked(old(self)@, s),
            live(s, n as int),
            old(self)@[n as int].parent == p,
            p != 0,
            old(self)@[p as int].left == n,
            old(self)@[p as int].right == sib,
            sib != 0,
            old(self)@[sib as int].left == near,
            near != 0,
            old(self)@[near as int].color == Color::Red,
            !is_red(old(self)@, old(self)@[sib as int].right),
            bal ==> short_at(old(self)@, bh, n) && old(self)@[sib as int].color == Color::Black,
        ensures
            linked(final(self)@, out.0@),
            out.0@.order == s.order,
            out.0@.pos == s.pos,
            same_orders(old(self)@, final(self)@),
            tracked_from(old(self)@, final(self)@),
            final(self)@[n as int] == old(self)@[n as int],
            final(self)@[p as int].left == n,
            final(self)@[p as int].right == near,
            final(self)@[p as int].color == old(self)@[p as int].color,
            final(self)@[p as int].parent == old(self)@[p as int].parent,
            final(self)@[near as int].right == sib,
            final(self)@[sib as int].color == Color::Red,
            final(self)@ == d5_left_store(old(self)@, sib, near),
            bal ==> short_at(final(self)@, out.1@, n) && final(self)@[near as int].color
                == Color::Black,
    {
        let ghost r0 = self@;
        proof {
            assert(slot_ok(r0, s, n as int));
            assert(slot_ok(r0, s, p as int));
            assert(slot_ok(r0, s, sib as int));
            assert(slot_ok(r0, s, near as int));
        }
        self.rotate_right_in(sib, Ghost(s));
        let ghost r1 = self@;
        let ghost s1 = shape_right(r0, s, sib);
        self.set_color(near, Color::Black);
        let ghost r2 = self@;
        self.set_color(sib, Color::Red);
        let ghost bh2 = bh.update(near as int, bh[near as int] + 1).update(
            sib as int,
            (bh[sib as int] - 1) as nat,
        );
        proof {
            let new = self@;
            lemma_rotated_right_at(r0, s, sib);
            lemma_rotated_right_keeps(r0, s, sib);
            lemma_recolored(r1, s1, near, Color::Black);
            lemma_recolored(r2, s1, sib, Color::Red);
            lemma_recolored_keeps(r1, near, Color::Black);
            lemma_recolored_keeps(r2, sib, Color::Red);
            lemma_same_orders_trans(r0, r1, r2);
            lemma_same_orders_trans(r0, r2, new);
            lemma_tracked_trans(r0, r1, r2);
            lemma_tracked_trans(r0, r2, new);
            assert(r1[p as int].color == r0[p as int].color);
            if bal {
                assert(height_ok(r0, bh, n as int));
                assert(height_ok(r0, bh, p as int));
                assert(height_ok(r0, bh, sib as int));
                assert(height_ok(r0, bh, near as int));
                assert(red_ok(r0, near as int));
                assert forall|a: int| 0 < a < new.len() implies #[trigger] height_ok(
                    new,
                    bh2,
                    a,
                ) by {
                    assert(height_ok(r0, bh, a));
                    assert(slot_ok(r0, s, a));
                }
                assert forall|a: int| 0 < a < new.len() implies #[trigger] red_ok(new, a) by {
                    assert(red_ok(r0, a));
                    assert(slot_ok(r0, s, a));
                }
                assert(!is_red(new, new[0].right));
            }
        }
        (Ghost(s1), Ghost(bh2))
    }

    /// The sibling of the left child `n` has a red right child: a
    /// rotation around the parent lifts the sibling above it; the sibling
    /// takes the parent's colour, and the parent and that child turn black.
    #[verifier::rlimit(50)]
    pub(crate) fn d6_left(
        &mut self,
        n: usize,
        p: usize,
        sib: usize,
        far: usize,
        Ghost(s): Ghost<Shape>,
        Ghost(bh): Ghost<Seq<nat>>,
        Ghost(bal): Ghost<bool>,
    ) -> (out: (Ghost<Shape>, Ghost<Seq<nat>>))
        requires
            linked(old(self)@, s),
            live(s, n as int),
            old(self)@[n as int].parent == p,
            p != 0,
            old(self)@[p as int].left == n,
            old(self)@[p as int].right == sib,
            sib != 0,
            old(self)@[sib as int].right == far,
            far != 0,
            old(self)@[far as int].color == Color::Red,
            bal ==> short_at(old(self)@, bh, n) && old(self)@[sib as int].color == Color::Black,
        ensures
            linked(final(self)@, out.0@),
            out.0@.order == s.order,
            out.0@.pos == s.pos,
            same_orders(old(self)@, final(self)@),
            tracked_from(old(self)@, final(self)@),
            final(self)@[n as int] == old(self)@[n as int],
            final(self)@ == d6_left_store(old(self)@, p, sib, far),
            bal ==> colored_without(final(self)@, out.1@, n),
    {
        let ghost r0 = self@;
        proof {
            assert(slot_ok(r0, s, n as int));
            assert(slot_ok(r0, s, p as int));
            assert(slot_ok(r0, s, sib as int));
            assert(slot_ok(r0, s, far as int));
        }
        self.rotate_left_in(p, Ghost(s));
        let ghost r1 = self@;
        let ghost s1 = shape_left(r0, s, p);
        let pc = self.rec(p).color;
        self.set_color(sib, pc);
        let ghost r2 = self@;
        self.set_color(far, Color::Black);
        let ghost r3 = self@;
        self.set_color(p, Color::Black);
        let ghost bh2 = bh.update(p as int, 1).update(far as int, 1).update(
            sib as int,
            bh[p as int],
        );
        proof {
            let new = self@;
            lemma_rotated_left_at(r0, s, p);
            lemma_rotated_left_keeps(r0, s, p);
            assert(pc == r0[p as int].color);
            lemma_recolored(r1, s1, sib, pc);
            lemma_recolored(r2, s1, far, Color::Black);
            lemma_recolored(r3, s1, p, Color::Black);
            lemma_recolored_keeps(r1, sib, pc);
            lemma_recolored_keeps(r2, far, Color::Black);
            lemma_recolored_keeps(r3, p, Color::Black);
            lemma_same_orders_trans(r0, r1, r2);
            lemma_same_orders_trans(r0, r2, r3);
            lemma_same_orders_trans(r0, r3, new);
            lemma_tracked_trans(r0, r1, r2);
            lemma_tracked_trans(r0, r2, r3);
            lemma_tracked_trans(r0, r3, new);
            if bal {
                assert(height_ok(r0, bh, n as int));
                assert(height_ok(r0, bh, p as int));
                assert(height_ok(r0, bh, sib as int));
                assert(height_ok(r0, bh, far as int));
                assert(red_ok(r0, p as int));
                if r0[p as int].parent != 0 {
                    assert(red_ok(r0, r0[p as int].parent as int));
                }
                assert forall|a: int| 0 < a < new.len() && a != n implies
                    #[trigger] height_ok_without(new, bh2, a, n) by {
                    assert(height_ok(r0, bh, a));
                    assert(slot_ok(r0, s, a));
                }
                assert forall|a: int| 0 < a < new.len() implies #[trigger] red_ok(new, a) by {
                    assert(red_ok(r0, a));
                    assert(slot_ok(r0, s, a));
                }
                assert(!is_red(new, new[0].right));
            }
        }
        (Ghost(s1), Ghost(bh2))
    }

    /// The sibling of the right child `n` is red: a rotation around the
    /// parent lifts the sibling above it, the parent turns red and the
    /// sibling black. `n` then has the sibling's former right child for a
    /// sibling.
    #[verifier::rlimit(50)]
    pub(crate) fn d3_right(
        &mut self,
        n: usize,
        p: usize,
        sib: usize,
        Ghost(s): Ghost<Shape>,
        Ghost(bh): Ghost<Seq<nat>>,
        Ghost(bal): Ghost<bool>,
    ) -> (out: (Ghost<Shape>, Ghost<Seq<nat>>))
        requires
            linked(old(self)@, s),
            live(s, n as int),
            old(self)@[n as int].parent == p,
            p != 0,
            old(self)@[p as int].right == n,
            old(self)@[p as int].left == sib,
            sib != 0,
            old(self)@[sib as int].right != 0,
            bal ==> short_at(old(self)@, bh, n) && old(self)@[sib as int].color == Color::Red,
        ensures
            linked(final(self)@, out.0@),
            out.0@.order == s.order,
            out.0@.pos == s.pos,
            same_orders(old(self)@, final(self)@),
            tracked_from(old(self)@, final(self)@),
            final(self)@[n as int] == old(self)@[n as int],
            final(self)@[p as int].right == n,
            final(self)@[p as int].left == old(self)@[sib as int].right,
            final(self)@[p as int].color == Color::Red,
            final(self)@[p as int].parent == sib,
            ({
                let c = old(self)@[sib as int].right as int;
                &&& final(self)@[c].left == old(self)@[c].left
                &&& final(self)@[c].right == old(self)@[c].right
            }),
            final(self)@ == d3_right_store(old(self)@, p, sib),
            bal ==> short_at(final(self)@, out.1@, n),
            bal ==> ({
                let c = old(self)@[sib as int].right as int;
                final(self)@[c].color == Color::Black
            }),
    {
        let ghost r0 = self@;
        proof {
            assert(slot_ok(r0, s, n as int));
            assert(slot_ok(r0, s, p as int));
            assert(slot_ok(r0, s, sib as int));
            assert(slot_ok(r0, s, r0[sib as int].right as int));
        }
        self.rotate_right_in(p, Ghost(s));
        let ghost r1 = self@;
        let ghost s1 = shape_right(r0, s, p);
        self.set_color(p, Color::Red);
        let ghost r2 = self@;
        self.set_color(sib, Color::Black);
        let ghost bh2 = bh.update(p as int, (bh[p as int] - 1) as nat).update(
            sib as int,
            bh[sib as int] + 1,
        );
        proof {
            let new = self@;
            lemma_rotated_right_at(r0, s, p);
            lemma_rotated_right_keeps(r0, s, p);
            lemma_recolored(r1, s1, p, Color::Red);
            lemma_recolored(r2, s1, sib, Color::Black);
            lemma_recolored_keeps(r1, p, Color::Red);
            lemma_recolored_keeps(r2, sib, Color::Black);
            lemma_same_orders_trans(r0, r1, r2);
            lemma_same_orders_trans(r0, r2, new);
            lemma_tracked_trans(r0, r1, r2);
            lemma_tracked_trans(r0, r2, new);
            if bal {
                assert(height_ok(r0, bh, n as int));
                assert(height_ok(r0, bh, p as int));
                assert(height_ok(r0, bh, sib as int));
                assert(red_ok(r0, sib as int));
                assert(red_ok(r0, p as int));
                if r0[p as int].parent != 0 {
                    assert(red_ok(r0, r0[p as int].parent as int));
                }
                assert forall|a: int| 0 < a < new.len() implies #[trigger] height_ok(
                    new,
                    bh2,
                    a,
                ) by {
                    assert(height_ok(r0, bh, a));
                    assert(slot_ok(r0, s, a));
                }
                assert forall|a: int| 0 < a < new.len() implies #[trigger] red_ok(new, a) by {
                    assert(red_ok(r0, a));
                    assert(slot_ok(r0, s, a));
                }
                assert(!is_red(new, new[0].right));
            }
        }
        (Ghost(s1), Ghost(bh2))
    }

    /// The sibling of the right child `n` has a red right child and no red
    /// left child: a rotation around the sibling lifts that child above
    /// it; the child turns black and the sibling red.
    #[verifier::rlimit(50)]
    pub(crate) fn d5_right(
        &mut self,
        n: usize,
        p: usize,
        sib: usize,
        near: usize,
        Ghost(s): Ghost<Shape>,
        Ghost(bh): Ghost<Seq<nat>>,
        Ghost(bal): Ghost<bool>,
    ) -> (out: (Ghost<Shape>, Ghost<Seq<nat>>))
        requires
            linked(old(self)@, s),
            live(s, n as int),
            old(self)@[n as int].parent == p,
            p != 0,
            old(self)@[p as int].right == n,
            old(self)@[p as int].left == sib,
            sib != 0,
            old(self)@[sib as int].right == near,
            near != 0,
            old(self)@[near as int].color == Color::Red,
            !is_red(old(self)@, old(self)@[sib as int].left),
            bal ==> short_at(old(self)@, bh, n) && old(self)@[sib as int].color == Color::Black,
        ensures
            linked(final(self)@, out.0@),
            out.0@.order == s.order,
            out.0@.pos == s.pos,
            same_orders(old(self)@, final(self)@),
            tracked_from(old(self)@, final(self)@),
            final(self)@[n as int] == old(self)@[n as int],
            final(self)@[p as int].right == n,
            final(self)@[p as int].left == near,
            final(self)@[p as int].color == old(self)@[p as int].color,
            final(self)@[p as int].parent == old(self)@[p as int].parent,
            final(self)@[near as int].left == sib,
            final(self)@[sib as int].color == Color::Red,
            final(self)@ == d5_right_store(old(self)@, sib, near),
            bal ==> short_at(final(self)@, out.1@, n) && final(self)@[near as int].color
                == Color::Black,
    {
        let ghost r0 = self@;
        proof {
            assert(slot_ok(r0, s, n as int));
            assert(slot_ok(r0, s, p as int));
            assert(slot_ok(r0, s, sib as int));
            assert(slot_ok(r0, s, near as int));
        }
        self.rotate_left_in(sib, Ghost(s));
        let ghost r1 = self@;
        let ghost s1 = shape_left(r0, s, sib);
        self.set_color(near, Color::Black);
        let ghost r2 = self@;
        self.set_color(sib, Color::Red);
        let ghost bh2 = bh.update(near as int, bh[near as int] + 1).update(
            sib as int,
            (bh[sib as int] - 1) as nat,
        );
        proof {
            let new = self@;
            lemma_rotated_left_at(r0, s, sib);
            lemma_rotated_left_keeps(r0, s, sib);
            lemma_recolored(r1, s1, near, Color::Black);
            lemma_recolored(r2, s1, sib, Color::Red);
            lemma_recolored_keeps(r1, near, Color::Black);
            lemma_recolored_keeps(r2, sib, Color::Red);
            lemma_same_orders_trans(r0, r1, r2);
            lemma_same_orders_trans(r0, r2, new);
            lemma_tracked_trans(r0, r1, r2);
            lemma_tracked_trans(r0, r2, new);
            assert(r1[p as int].color == r0[p as int].color);
            if bal {
                assert(height_ok(r0, bh, n as int));
                assert(height_ok(r0, bh, p as int));
                assert(height_ok(r0, bh, sib as int));
                assert(height_ok(r0, bh, near as int));
                assert(red_ok(r0, near as int));
                assert forall|a: int| 0 < a < new.len() implies #[trigger] height_ok(
                    new,
                    bh2,
                    a,
                ) by {
                    assert(height_ok(r0, bh, a));
                    assert(slot_ok(r0, s, a));
                }
                assert forall|a: int| 0 < a < new.len() implies #[trigger] red_ok(new, a) by {
                    assert(red_ok(r0, a));
                    assert(slot_ok(r0, s, a));
                }
                assert(!is_red(new, new[0].right));
            }
        }
        (Ghost(s1), Ghost(bh2))
    }

    /// The sibling of the right child `n` has a red left child: a
    /// rotation around the parent lifts the sibling above it; the sibling
    /// takes the parent's colour, and the parent and that child turn black.
    #[verifier::rlimit(50)]
    pub(crate) fn d6_right(
        &mut self,
        n: usize,
        p: usize,
        sib: usize,
        far: usize,
        Ghost(s): Ghost<Shape>,
        Ghost(bh): Ghost<Seq<nat>>,
        Ghost(bal): Ghost<bool>,
    ) -> (out: (Ghost<Shape>, Ghost<Seq<nat>>))
        requires
            linked(old(self)@, s),
            live(s, n as int),
            old(self)@[n as int].parent == p,
            p != 0,
            old(self)@[p as int].right == n,
            old(self)@[p as int].left == sib,
            sib != 0,
            old(self)@[sib as int].left == far,
            far != 0,
            old(self)@[far as int].color == Color::Red,
            bal ==> short_at(old(self)@, bh, n) && old(self)@[sib as int].color == Color::Black,
        ensures
            linked(final(self)@, out.0@),
            out.0@.order == s.order,
            out.0@.pos == s.pos,
            same_orders(old(self)@, final(self)@),
            tracked_from(old(self)@, final(self)@),
            final(self)@[n as int] == old(self)@[n as int],
            final(self)@ == d6_right_store(old(self)@, p, sib, far),
            bal ==> colored_without(final(self)@, out.1@, n),
    {
        let ghost r0 = self@;
        proof {
            assert(slot_ok(r0, s, n as int));
            assert(slot_ok(r0, s, p as int));
            assert(slot_ok(r0, s, sib as int));
            assert(slot_ok(r0, s, far as int));
        }
        self.rotate_right_in(p, Ghost(s));
        let ghost r1 = self@;
        let ghost s1 = shape_right(r0, s, p);
        let pc = self.rec(p).color;
        self.set_color(sib, pc);
        let ghost r2 = self@;
        self.set_color(far, Color::Black);
        let ghost r3 = self@;
        self.set_color(p, Color::Black);
        let ghost bh2 = bh.update(p as int, 1).update(far as int, 1).update(
            sib as int,
            bh[p as int],
        );
        proof {
            let new = self@;
            lemma_rotated_right_at(r0, s, p);
            lemma_rotated_right_keeps(r0, s, p);
            assert(pc == r0[p as int].color);
            lemma_recolored(r1, s1, sib, pc);
            lemma_recolored(r2, s1, far, Color::Black);
            lemma_recolored(r3, s1, p, Color::Black);
            lemma_recolored_keeps(r1, sib, pc);
            lemma_recolored_keeps(r2, far, Color::Black);
            lemma_recolored_keeps(r3, p, Color::Black);
            lemma_same_orders_trans(r0, r1, r2);
            lemma_same_orders_trans(r0, r2, r3);
            lemma_same_orders_trans(r0, r3, new);
            lemma_tracked_trans(r0, r1, r2);
            lemma_tracked_trans(r0, r2, r3);
            lemma_tracked_trans(r0, r3, new);
            if bal {
                assert(height_ok(r0, bh, n as int));
                assert(height_ok(r0, bh, p as int));
                assert(height_ok(r0, bh, sib as int));
                assert(height_ok(r0, bh, far as int));
                assert(red_ok(r0, p as int));
                if r0[p as int].parent != 0 {
                    assert(red_ok(r0, r0[p as int].parent as int));
                }
                assert forall|a: int| 0 < a < new.len() && a != n implies
                    #[trigger] height_ok_without(new, bh2, a, n) by {
                    assert(height_ok(r0, bh, a));
                    assert(slot_ok(r0, s, a));
                }
                assert forall|a: int| 0 < a < new.len() implies #[trigger] red_ok(new, a) by {
                    assert(red_ok(r0, a));
                    assert(slot_ok(r0, s, a));
                }
                assert(!is_red(new, new[0].right));
            }
        }
        (Ghost(s1), Ghost(bh2))
    }
}

} // verus!
