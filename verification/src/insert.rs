//! Insertion: search for the slot, link a red leaf, restore the colours.

use vstd::prelude::*;
use crate::book::OrderBook;
use crate::place::{
    is_slot, leaf_fits, lemma_with_leaf, lemma_with_leaf_colors, lemma_with_leaf_sorted,
    shape_with_leaf, slot_search, with_leaf,
};
use crate::remove::cleared;
use crate::record::{Address, Color, Record};
use crate::rotate::{
    lemma_rotated_left_at, lemma_rotated_left_keeps, lemma_rotated_right_at,
    lemma_rotated_right_keeps, rotated_left, rotated_right, shape_left, shape_right,
};
use crate::shape::{
    colored, heights_ok, height_ok, is_red, linked, live, red_ok, same_colors, same_orders,
    lemma_grow, lemma_grow_colored, lemma_inorder, lemma_same_orders_trans,
    lemma_sorted_same_orders, lemma_tracked_trans, slot_ok, structured, tracked_from, Shape,
};

verus! {

/// The store after the record at `a` took the colour `c`.
pub open spec fn recolored(recs: Seq<Record>, a: usize, c: Color) -> Seq<Record> {
    recs.update(a as int, (Record { color: c, dirty: true, ..recs[a as int] }))
}

/// Giving a record of the tree another of the two colours keeps the links
/// consistent.
pub proof fn lemma_recolored(recs: Seq<Record>, s: Shape, a: usize, c: Color)
    requires
        linked(recs, s),
        live(s, a as int),
        c != Color::RootSentinel,
    ensures
        linked(recolored(recs, a, c), s),
{
    let new = recolored(recs, a, c);
    assert forall|x: int| 0 < x < new.len() implies #[trigger] slot_ok(new, s, x) by {
        assert(slot_ok(recs, s, x));
    }
    assert forall|i: int| 0 <= i < s.order.len() implies 0 < (#[trigger] s.order[i]) < new.len()
        && s.pos[s.order[i] as int] == i by {
        assert(0 < s.order[i] < recs.len());
    }
}

/// If `a` is red, none of its children is, but perhaps `z`.
pub open spec fn red_ok_but(recs: Seq<Record>, a: int, z: usize) -> bool {
    recs[a].color == Color::Red ==> {
        &&& (recs[a].left != z ==> !is_red(recs, recs[a].left))
        &&& (recs[a].right != z ==> !is_red(recs, recs[a].right))
    }
}

/// The state of the colours while insertion repairs them: black heights are
/// in order, `z` is red, and the only red record that may have a red parent
/// is `z`; the root may be red only if it is `z`.
pub open spec fn fix_inv(recs: Seq<Record>, bh: Seq<nat>, z: usize) -> bool {
    &&& heights_ok(recs, bh)
    &&& forall|a: int| 0 < a < recs.len() ==> #[trigger] red_ok_but(recs, a, z)
    &&& recs[z as int].color == Color::Red
    &&& (is_red(recs, recs[0].right) ==> recs[0].right == z)
}

/// The store after the walk that restores the colours above the red
/// record `z`, before the root is turned black. While the parent of `z` is
/// red and is not the root: a red uncle turns black together with the
/// parent, the grandparent turns red, and the walk goes on from the
/// grandparent; otherwise `z` is first rotated into line with its parent if
/// it is an inner grandchild, then the record in the parent's place turns
/// black, the grandparent red, and a rotation around the grandparent ends
/// the walk. `fuel` bounds the number of steps.
pub open spec fn repaired_from(recs: Seq<Record>, z: usize, fuel: nat) -> Seq<Record>
    decreases fuel,
{
    let p = recs[z as int].parent;
    let g = recs[p as int].parent;
    if fuel == 0 || p == 0 || recs[p as int].color != Color::Red || g == 0 {
        recs
    } else if recs[g as int].left == p {
        let u = recs[g as int].right;
        if is_red(recs, u) {
            repaired_from(
                recolored(recolored(recolored(recs, u, Color::Black), p, Color::Black), g, Color::Red),
                g,
                (fuel - 1) as nat,
            )
        } else if recs[p as int].right == z {
            rotated_right(
                recolored(recolored(rotated_left(recs, p), z, Color::Black), g, Color::Red),
                g,
            )
        } else {
            rotated_right(recolored(recolored(recs, p, Color::Black), g, Color::Red), g)
        }
    } else {
        let u = recs[g as int].left;
        if is_red(recs, u) {
            repaired_from(
                recolored(recolored(recolored(recs, u, Color::Black), p, Color::Black), g, Color::Red),
                g,
                (fuel - 1) as nat,
            )
        } else if recs[p as int].left == z {
            rotated_left(
                recolored(recolored(rotated_right(recs, p), z, Color::Black), g, Color::Red),
                g,
            )
        } else {
            rotated_left(recolored(recolored(recs, p, Color::Black), g, Color::Red), g)
        }
    }
}

/// The store after the colours above the red record `z` were restored and
/// the root was turned black.
pub open spec fn fixed_up(recs: Seq<Record>, z: usize) -> Seq<Record> {
    let r = repaired_from(recs, z, recs.len());
    recolored(r, r[0].right, Color::Black)
}

/// The store after an order was rested: a slot is added, the order is hung
/// as a red leaf where the search for its key ends, and the colours are
/// restored.
pub open spec fn inserted(
    recs: Seq<Record>,
    quantity: u64,
    price: u64,
    time: u64,
    order_id: u64,
) -> Seq<Record> {
    let addr = recs.len() as usize;
    let slot = if recs[0].right == 0 {
        (0usize, false)
    } else {
        slot_search(recs, recs[0].right, price, time, recs.len())
    };
    let leaf = Record {
        color: Color::Red,
        parent: slot.0,
        left: 0,
        right: 0,
        quantity,
        price,
        time,
        order_id,
        dirty: true,
    };
    fixed_up(with_leaf(recs.push(cleared()), addr, slot.0, slot.1, leaf), addr)
}

impl OrderBook {
    /// The parent and the uncle of `z` are red: both turn black, the
    /// grandparent turns red, and the repair moves on to the grandparent.
    pub(crate) fn fix_recolor(
        &mut self,
        z: usize,
        p: usize,
        g: usize,
        u: usize,
        Ghost(s): Ghost<Shape>,
        Ghost(bh): Ghost<Seq<nat>>,
        Ghost(bal): Ghost<bool>,
    ) -> (out: Ghost<Seq<nat>>)
        requires
            linked(old(self)@, s),
            live(s, z as int),
            p == old(self)@[z as int].parent,
            p != 0,
            old(self)@[p as int].color == Color::Red,
            g == old(self)@[p as int].parent,
            g != 0,
            u != 0,
            u != p,
            old(self)@[g as int].left == u || old(self)@[g as int].right == u,
            old(self)@[u as int].color == Color::Red,
            bal ==> fix_inv(old(self)@, bh, z),
        ensures
            linked(final(self)@, s),
            same_orders(old(self)@, final(self)@),
            tracked_from(old(self)@, final(self)@),
            live(s, g as int),
            final(self)@[g as int].color == Color::Red,
            final(self)@ == recolored(
                recolored(recolored(old(self)@, u, Color::Black), p, Color::Black),
                g,
                Color::Red,
            ),
            bal ==> fix_inv(final(self)@, out@, g),
    {
        proof {
            assert(slot_ok(self@, s, z as int));
            assert(slot_ok(self@, s, p as int));
            assert(slot_ok(self@, s, g as int));
            assert(slot_ok(self@, s, u as int));
        }
        let ghost r0 = self@;
        self.set_color(u, Color::Black);
        proof {
            lemma_recolored(r0, s, u, Color::Black);
        }
        let ghost r1 = self@;
        self.set_color(p, Color::Black);
        proof {
            lemma_recolored(r1, s, p, Color::Black);
        }
        let ghost r2 = self@;
        self.set_color(g, Color::Red);
        proof {
            lemma_recolored(r2, s, g, Color::Red);
        }
        let ghost bh2 = bh.update(p as int, bh[p as int] + 1).update(u as int, bh[u as int] + 1);
        proof {
            let new = self@;
            if bal {
                assert(red_ok_but(r0, g as int, z));
                assert(r0[g as int].color == Color::Black);
                assert(height_ok(r0, bh, g as int));
                assert(height_ok(r0, bh, p as int));
                assert(height_ok(r0, bh, u as int));
                assert forall|a: int| 0 < a < new.len() implies #[trigger] height_ok(
                    new,
                    bh2,
                    a,
                ) by {
                    assert(height_ok(r0, bh, a));
                    assert(slot_ok(r0, s, a));
                }
                assert forall|a: int| 0 < a < new.len() implies #[trigger] red_ok_but(
                    new,
                    a,
                    g,
                ) by {
                    assert(red_ok_but(r0, a, z));
                    assert(slot_ok(r0, s, a));
                }
            }
        }
        Ghost(bh2)
    }

    /// The parent of `z` is a red left child with no red sibling, and `z` is
    /// its right child: a rotation around the parent puts the two in line. The
    /// repair goes on at the former parent.
    pub(crate) fn fix_align_left(
        &mut self,
        z: usize,
        p: usize,
        g: usize,
        Ghost(s): Ghost<Shape>,
        Ghost(bh): Ghost<Seq<nat>>,
        Ghost(bal): Ghost<bool>,
    ) -> (out: Ghost<Shape>)
        requires
            linked(old(self)@, s),
            live(s, z as int),
            old(self)@[z as int].parent == p,
            p != 0,
            old(self)@[p as int].right == z,
            old(self)@[p as int].parent == g,
            g != 0,
            old(self)@[g as int].left == p,
            old(self)@[p as int].color == Color::Red,
            old(self)@[z as int].color == Color::Red,
            bal ==> fix_inv(old(self)@, bh, z),
        ensures
            linked(final(self)@, out@),
            out@.order == s.order,
            same_orders(old(self)@, final(self)@),
            same_colors(old(self)@, final(self)@),
            tracked_from(old(self)@, final(self)@),
            live(out@, p as int),
            final(self)@[p as int].parent == z,
            final(self)@[z as int].left == p,
            final(self)@[z as int].parent == g,
            final(self)@[g as int].left == z,
            final(self)@[g as int].right == old(self)@[g as int].right,
            final(self)@ == rotated_left(old(self)@, p),
            bal ==> fix_inv(final(self)@, bh, p),
    {
        let ghost r0 = self@;
        proof {
            assert(slot_ok(r0, s, z as int));
            assert(slot_ok(r0, s, p as int));
            assert(slot_ok(r0, s, g as int));
        }
        self.rotate_left_in(p, Ghost(s));
        let ghost s2 = shape_left(r0, s, p);
        proof {
            let new = self@;
            lemma_rotated_left_at(r0, s, p);
            lemma_rotated_left_keeps(r0, s, p);
            assert(r0[g as int].left == p);
            assert(new[g as int].left == z);
            if bal {
                assert(red_ok_but(r0, g as int, z));
                assert(red_ok_but(r0, p as int, z));
                assert(red_ok_but(r0, z as int, z));
                assert(height_ok(r0, bh, g as int));
                assert(height_ok(r0, bh, p as int));
                assert(height_ok(r0, bh, z as int));
                assert forall|a: int| 0 < a < new.len() implies #[trigger] height_ok(
                    new,
                    bh,
                    a,
                ) by {
                    assert(height_ok(r0, bh, a));
                    assert(slot_ok(r0, s, a));
                }
                assert forall|a: int| 0 < a < new.len() implies #[trigger] red_ok_but(
                    new,
                    a,
                    p,
                ) by {
                    assert(red_ok_but(r0, a, z));
                    assert(slot_ok(r0, s, a));
                }
            }
        }
        Ghost(s2)
    }

    /// The parent of `z` is a red left child with no red sibling, and `z` is
    /// its left child: the parent turns black, the grandparent red, and a
    /// rotation around the grandparent lifts the parent into its place.
    pub(crate) fn fix_finish_left(
        &mut self,
        z: usize,
        p: usize,
        g: usize,
        Ghost(s): Ghost<Shape>,
        Ghost(bh): Ghost<Seq<nat>>,
        Ghost(bal): Ghost<bool>,
    ) -> (out: (Ghost<Shape>, Ghost<Seq<nat>>))
        requires
            linked(old(self)@, s),
            live(s, z as int),
            old(self)@[z as int].parent == p,
            p != 0,
            old(self)@[p as int].left == z,
            old(self)@[p as int].parent == g,
            g != 0,
            old(self)@[g as int].left == p,
            old(self)@[p as int].color == Color::Red,
            old(self)@[z as int].color == Color::Red,
            !is_red(old(self)@, old(self)@[g as int].right),
            bal ==> fix_inv(old(self)@, bh, z),
        ensures
            linked(final(self)@, out.0@),
            out.0@.order == s.order,
            same_orders(old(self)@, final(self)@),
            tracked_from(old(self)@, final(self)@),
            live(out.0@, z as int),
            final(self)@[z as int].color == Color::Red,
            final(self)@[z as int].parent == p,
            final(self)@[p as int].color == Color::Black,
            final(self)@ == rotated_right(
                recolored(recolored(old(self)@, p, Color::Black), g, Color::Red),
                g,
            ),
            bal ==> colored(final(self)@, out.1@),
    {
        let ghost r0 = self@;
        proof {
            assert(slot_ok(r0, s, z as int));
            assert(slot_ok(r0, s, p as int));
            assert(slot_ok(r0, s, g as int));
        }
        self.set_color(p, Color::Black);
        let ghost r1 = self@;
        self.set_color(g, Color::Red);
        let ghost r2 = self@;
        proof {
            lemma_recolored(r0, s, p, Color::Black);
            lemma_recolored(r1, s, g, Color::Red);
            assert(slot_ok(r2, s, g as int));
        }
        self.rotate_right_in(g, Ghost(s));
        let ghost s2 = shape_right(r2, s, g);
        let ghost bh2 = bh.update(p as int, bh[p as int] + 1).update(
            g as int,
            (bh[g as int] - 1) as nat,
        );
        proof {
            let new = self@;
            lemma_rotated_right_at(r2, s, g);
            lemma_rotated_right_keeps(r2, s, g);
            assert(same_orders(r0, new)) by {
                assert forall|i: int| 0 <= i < r0.len() implies {
                    &&& (#[trigger] new[i]).quantity == r0[i].quantity
                    &&& new[i].price == r0[i].price
                    &&& new[i].time == r0[i].time
                    &&& new[i].order_id == r0[i].order_id
                } by {
                    assert(r2[i].quantity == r0[i].quantity);
                }
            }
            assert(tracked_from(r0, new)) by {
                assert forall|a: int| 0 <= a < new.len() implies (#[trigger] new[a]).dirty || (a
                    < r0.len() && new[a] == r0[a]) by {
                    assert(r2[a].dirty || r2[a] == r0[a]);
                }
            }
            if bal {
                assert(red_ok_but(r0, g as int, z));
                assert(red_ok_but(r0, p as int, z));
                assert(red_ok_but(r0, z as int, z));
                assert(r0[g as int].color == Color::Black);
                assert(height_ok(r0, bh, g as int));
                assert(height_ok(r0, bh, p as int));
                assert(height_ok(r0, bh, z as int));
                assert(bh[g as int] == bh[p as int] + 1);
                assert forall|a: int| 0 < a < new.len() implies #[trigger] height_ok(
                    new,
                    bh2,
                    a,
                ) by {
                    assert(height_ok(r0, bh, a));
                    assert(slot_ok(r0, s, a));
                }
                assert forall|a: int| 0 < a < new.len() implies #[trigger] red_ok(new, a) by {
                    assert(red_ok_but(r0, a, z));
                    assert(slot_ok(r0, s, a));
                }
                assert(!is_red(new, new[0].right));
            }
        }
        (Ghost(s2), Ghost(bh2))
    }

    /// The parent of `z` is a red right child with no red sibling, and `z` is
    /// its left child: a rotation around the parent puts the two in line. The
    /// repair goes on at the former parent.
    pub(crate) fn fix_align_right(
        &mut self,
        z: usize,
        p: usize,
        g: usize,
        Ghost(s): Ghost<Shape>,
        Ghost(bh): Ghost<Seq<nat>>,
        Ghost(bal): Ghost<bool>,
    ) -> (out: Ghost<Shape>)
        requires
            linked(old(self)@, s),
            live(s, z as int),
            old(self)@[z as int].parent == p,
            p != 0,
            old(self)@[p as int].left == z,
            old(self)@[p as int].parent == g,
            g != 0,
            old(self)@[g as int].right == p,
            old(self)@[p as int].color == Color::Red,
            old(self)@[z as int].color == Color::Red,
            bal ==> fix_inv(old(self)@, bh, z),
        ensures
            linked(final(self)@, out@),
            out@.order == s.order,
            same_orders(old(self)@, final(self)@),
            same_colors(old(self)@, final(self)@),
            tracked_from(old(self)@, final(self)@),
            live(out@, p as int),
            final(self)@[p as int].parent == z,
            final(self)@[z as int].right == p,
            final(self)@[z as int].parent == g,
            final(self)@[g as int].right == z,
            final(self)@[g as int].left == old(self)@[g as int].left,
            final(self)@ == rotated_right(old(self)@, p),
            bal ==> fix_inv(final(self)@, bh, p),
    {
        let ghost r0 = self@;
        proof {
            assert(slot_ok(r0, s, z as int));
            assert(slot_ok(r0, s, p as int));
            assert(slot_ok(r0, s, g as int));
        }
        self.rotate_right_in(p, Ghost(s));
        let ghost s2 = shape_right(r0, s, p);
        proof {
            let new = self@;
            lemma_rotated_right_at(r0, s, p);
            lemma_rotated_right_keeps(r0, s, p);
            assert(r0[g as int].right == p);
            assert(new[g as int].right == z);
            if bal {
                assert(red_ok_but(r0, g as int, z));
                assert(red_ok_but(r0, p as int, z));
                assert(red_ok_but(r0, z as int, z));
                assert(height_ok(r0, bh, g as int));
                assert(height_ok(r0, bh, p as int));
                assert(height_ok(r0, bh, z as int));
                assert forall|a: int| 0 < a < new.len() implies #[trigger] height_ok(
                    new,
                    bh,
                    a,
                ) by {
                    assert(height_ok(r0, bh, a));
                    assert(slot_ok(r0, s, a));
                }
                assert forall|a: int| 0 < a < new.len() implies #[trigger] red_ok_but(
                    new,
                    a,
                    p,
                ) by {
                    assert(red_ok_but(r0, a, z));
                    assert(slot_ok(r0, s, a));
                }
            }
        }
        Ghost(s2)
    }

    /// The parent of `z` is a red right child with no red sibling, and `z` is
    /// its right child: the parent turns black, the grandparent red, and a
    /// rotation around the grandparent lifts the parent into its place.
    pub(crate) fn fix_finish_right(
        &mut self,
        z: usize,
        p: usize,
        g: usize,
        Ghost(s): Ghost<Shape>,
        Ghost(bh): Ghost<Seq<nat>>,
        Ghost(bal): Ghost<bool>,
    ) -> (out: (Ghost<Shape>, Ghost<Seq<nat>>))
        requires
            linked(old(self)@, s),
            live(s, z as int),
            old(self)@[z as int].parent == p,
            p != 0,
            old(self)@[p as int].right == z,
            old(self)@[p as int].parent == g,
            g != 0,
            old(self)@[g as int].right == p,
            old(self)@[p as int].color == Color::Red,
            old(self)@[z as int].color == Color::Red,
            !is_red(old(self)@, old(self)@[g as int].left),
            bal ==> fix_inv(old(self)@, bh, z),
        ensures
            linked(final(self)@, out.0@),
            out.0@.order == s.order,
            same_orders(old(self)@, final(self)@),
            tracked_from(old(self)@, final(self)@),
            live(out.0@, z as int),
            final(self)@[z as int].color == Color::Red,
            final(self)@[z as int].parent == p,
            final(self)@[p as int].color == Color::Black,
            final(self)@ == rotated_left(
                recolored(recolored(old(self)@, p, Color::Black), g, Color::Red),
                g,
            ),
            bal ==> colored(final(self)@, out.1@),
    {
        let ghost r0 = self@;
        proof {
            assert(slot_ok(r0, s, z as int));
            assert(slot_ok(r0, s, p as int));
            assert(slot_ok(r0, s, g as int));
        }
        self.set_color(p, Color::Black);
        let ghost r1 = self@;
        self.set_color(g, Color::Red);
        let ghost r2 = self@;
        proof {
            lemma_recolored(r0, s, p, Color::Black);
            lemma_recolored(r1, s, g, Color::Red);
            assert(slot_ok(r2, s, g as int));
        }
        self.rotate_left_in(g, Ghost(s));
        let ghost s2 = shape_left(r2, s, g);
        let ghost bh2 = bh.update(p as int, bh[p as int] + 1).update(
            g as int,
            (bh[g as int] - 1) as nat,
        );
        proof {
            let new = self@;
            lemma_rotated_left_at(r2, s, g);
            lemma_rotated_left_keeps(r2, s, g);
            assert(same_orders(r0, new)) by {
                assert forall|i: int| 0 <= i < r0.len() implies {
                    &&& (#[trigger] new[i]).quantity == r0[i].quantity
                    &&& new[i].price == r0[i].price
                    &&& new[i].time == r0[i].time
                    &&& new[i].order_id == r0[i].order_id
                } by {
                    assert(r2[i].quantity == r0[i].quantity);
                }
            }
            assert(tracked_from(r0, new)) by {
                assert forall|a: int| 0 <= a < new.len() implies (#[trigger] new[a]).dirty || (a
                    < r0.len() && new[a] == r0[a]) by {
                    assert(r2[a].dirty || r2[a] == r0[a]);
                }
            }
            if bal {
                assert(red_ok_but(r0, g as int, z));
                assert(red_ok_but(r0, p as int, z));
                assert(red_ok_but(r0, z as int, z));
                assert(r0[g as int].color == Color::Black);
                assert(height_ok(r0, bh, g as int));
                assert(height_ok(r0, bh, p as int));
                assert(height_ok(r0, bh, z as int));
                assert(bh[g as int] == bh[p as int] + 1);
                assert forall|a: int| 0 < a < new.len() implies #[trigger] height_ok(
                    new,
                    bh2,
                    a,
                ) by {
                    assert(height_ok(r0, bh, a));
                    assert(slot_ok(r0, s, a));
                }
                assert forall|a: int| 0 < a < new.len() implies #[trigger] red_ok(new, a) by {
                    assert(red_ok_but(r0, a, z));
                    assert(slot_ok(r0, s, a));
                }
                assert(!is_red(new, new[0].right));
            }
        }
        (Ghost(s2), Ghost(bh2))
    }

    /// Rests a new order in the book: takes the next address from the
    /// counter, hangs the order into the tree as a red leaf at the place its
    /// key gives it (right of every resting order that does not rank above
    /// it), and restores the colours.
    pub fn insert(&mut self, quantity: u64, price: u64, time: u64, order_id: u64) -> (addr: Address)
        requires
            old(self).wf(),
        ensures
            final(self).wf(),
            addr == old(self)@.len(),
            final(self)@.len() == old(self)@.len() + 1,
            final(self)@[addr as int].quantity == quantity,
            final(self)@[addr as int].price == price,
            final(self)@[addr as int].time == time,
            final(self)@[addr as int].order_id == order_id,
            same_orders(old(self)@, final(self)@.drop_last()),
            exists|k: int|
                #![trigger old(self).inorder().insert(k, addr)]
                is_slot(old(self)@, old(self).inorder(), k, price, time) && final(self).inorder()
                    == old(self).inorder().insert(k, addr),
            old(self).is_red_black() ==> final(self).is_red_black(),
            tracked_from(old(self)@, final(self)@),
            final(self)@ == inserted(old(self)@, quantity, price, time, order_id),
    {
        let ghost r0 = self@;
        let ghost s0 = choose|s: Shape| structured(r0, s);
        let ghost bal = self.is_red_black();
        let ghost bh0 = choose|bh: Seq<nat>| colored(r0, bh);
        proof {
            lemma_inorder(r0, s0);
        }
        let addr = self.len();
        let root = self.rec(0).right;
        let (p, left) = if root == 0 {
            (0, false)
        } else {
            self.find_slot(price, time, Ghost(s0))
        };
        let ghost k: int = if p == 0 {
            0
        } else if left {
            s0.pos[p as int]
        } else {
            s0.pos[p as int] + 1
        };
        self.grow(Record::empty(true));
        let ghost r1 = self@;
        let ghost s1 = Shape { pos: s0.pos.push(-1), lo: s0.lo.push(0), hi: s0.hi.push(0), ..s0 };
        let ghost bh1 = bh0.push(1);
        proof {
            lemma_grow(r0, r1, s0, s1);
            if bal {
                lemma_grow_colored(r0, r1, s0, bh0, bh1);
            }
        }
        let leaf = Record {
            color: Color::Red,
            parent: p,
            left: 0,
            right: 0,
            quantity,
            price,
            time,
            order_id,
            dirty: true,
        };
        self.write(addr, leaf);
        if left && p != 0 {
            self.set_left(p, addr);
        } else {
            self.set_right(p, addr);
        }
        let ghost r2 = self@;
        let ghost s2 = shape_with_leaf(s1, addr, k, left);
        let ghost bh2 = bh1.update(addr as int, 0);
        proof {
            assert(r2 =~= with_leaf(r1, addr, p, left, leaf));
            assert(leaf_fits(r1, s1, addr, p, left, k));
            assert(is_slot(r1, s1.order, k, price, time)) by {
                assert forall|i: int| 0 <= i < s0.order.len() implies (#[trigger] r1[s0.order[i] as int])
                    == r0[s0.order[i] as int] by {
                    assert(0 < s0.order[i] < r0.len());
                }
            }
            lemma_with_leaf(r1, s1, addr, p, left, k, leaf);
            lemma_with_leaf_sorted(r1, s1, addr, p, left, k, leaf);
            if bal {
                lemma_with_leaf_colors(r1, s1, addr, p, left, k, leaf, bh1);
            }
            assert(live(s2, addr as int));
        }
        let fin = self.insert_fixup(addr, Ghost(s2), Ghost(bh2), Ghost(bal));
        proof {
            let s3 = fin.0@;
            assert forall|i: int| 0 <= i < s2.order.len() implies (#[trigger] s2.order[i])
                < r2.len() by {}
            lemma_sorted_same_orders(r2, self@, s2.order);
            assert(structured(self@, s3));
            lemma_inorder(self@, s3);
            assert(old(self).inorder().insert(k, addr) == final(self).inorder());
            assert(tracked_from(r0, r2));
            lemma_tracked_trans(r0, r2, self@);
            assert(same_orders(r0, self@.drop_last())) by {
                assert forall|i: int| 0 <= i < r0.len() implies {
                    &&& (#[trigger] self@.drop_last()[i]).quantity == r0[i].quantity
                    &&& self@.drop_last()[i].price == r0[i].price
                    &&& self@.drop_last()[i].time == r0[i].time
                    &&& self@.drop_last()[i].order_id == r0[i].order_id
                } by {
                    assert(r2[i].quantity == r0[i].quantity);
                    assert(self@[i].quantity == r2[i].quantity);
                }
            }
            if bal {
                assert(colored(self@, fin.1@));
            }
        }
        addr
    }

    /// Ends the repair: the root turns black, whatever its colour was.
    pub(crate) fn finish_root(
        &mut self,
        z: usize,
        Ghost(s): Ghost<Shape>,
        Ghost(bh): Ghost<Seq<nat>>,
        Ghost(bal): Ghost<bool>,
    ) -> (out: Ghost<Seq<nat>>)
        requires
            linked(old(self)@, s),
            live(s, z as int),
            repaired(old(self)@, z),
            bal ==> fix_inv(old(self)@, bh, z),
        ensures
            final(self)@ == recolored(old(self)@, old(self)@[0].right, Color::Black),
            linked(final(self)@, s),
            bal ==> colored(final(self)@, out@),
    {
        let ghost r0 = self@;
        proof {
            assert(slot_ok(r0, s, z as int));
        }
        let root = self.rec(0).right;
        self.set_color(root, Color::Black);
        let ghost bh2 = if r0[root as int].color == Color::Red {
            bh.update(root as int, bh[root as int] + 1)
        } else {
            bh
        };
        proof {
            let new = self@;
            lemma_recolored(r0, s, root, Color::Black);
            assert(slot_ok(r0, s, root as int));
            let p = r0[z as int].parent;
            if p != 0 {
                assert(slot_ok(r0, s, p as int));
            }
            if bal {
                assert forall|a: int| 0 < a < new.len() implies #[trigger] height_ok(
                    new,
                    bh2,
                    a,
                ) by {
                    assert(height_ok(r0, bh, a));
                    assert(slot_ok(r0, s, a));
                }
                assert forall|a: int| 0 < a < new.len() implies #[trigger] red_ok(new, a) by {
                    assert(red_ok_but(r0, a, z));
                    assert(slot_ok(r0, s, a));
                }
            }
        }
        Ghost(bh2)
    }

    /// Restores the colours after the red record `z0` was linked in: walks
    /// up from `z0` while its parent is red, recolouring or rotating, then
    /// turns the root black.
    pub(crate) fn insert_fixup(
        &mut self,
        z0: usize,
        Ghost(s0): Ghost<Shape>,
        Ghost(bh0): Ghost<Seq<nat>>,
        Ghost(bal): Ghost<bool>,
    ) -> (out: (Ghost<Shape>, Ghost<Seq<nat>>))
        requires
            linked(old(self)@, s0),
            live(s0, z0 as int),
            old(self)@[z0 as int].color == Color::Red,
            bal ==> fix_inv(old(self)@, bh0, z0),
        ensures
            linked(final(self)@, out.0@),
            out.0@.order == s0.order,
            same_orders(old(self)@, final(self)@),
            tracked_from(old(self)@, final(self)@),
            final(self)@ == fixed_up(old(self)@, z0),
            bal ==> colored(final(self)@, out.1@),
    {
        let mut z = z0;
        let ghost mut bh = bh0;
        let ghost mut s = s0;
        let ghost mut fuel: nat = self@.len();
        proof {
            assert(slot_ok(self@, s, z as int));
        }
        loop
            invariant_except_break
                fuel >= s.order.len() - (s.hi[z as int] - s.lo[z as int]) + 1,
                repaired_from(old(self)@, z0, old(self)@.len()) == repaired_from(self@, z, fuel),
            invariant
                linked(self@, s),
                s.order == s0.order,
                live(s, z as int),
                self@[z as int].color == Color::Red,
                same_orders(old(self)@, self@),
                tracked_from(old(self)@, self@),
                bal ==> fix_inv(self@, bh, z),
            ensures
                repaired(self@, z),
                self@ == repaired_from(old(self)@, z0, old(self)@.len()),
            decreases s.order.len() - (s.hi[z as int] - s.lo[z as int]),
        {
            let ghost r0 = self@;
            proof {
                assert(slot_ok(r0, s, z as int));
            }
            let p = self.rec(z).parent;
            if p == 0 {
                break ;
            }
            proof {
                assert(slot_ok(r0, s, p as int));
            }
            let prec = self.rec(p);
            if prec.color != Color::Red {
                break ;
            }
            let g = prec.parent;
            if g == 0 {
                break ;
            }
            proof {
                assert(slot_ok(r0, s, g as int));
            }
            let grec = self.rec(g);
            if grec.left == p {
                let u = grec.right;
                let uncle_red = u != 0 && self.rec(u).color == Color::Red;
                if uncle_red {
                    let b = self.fix_recolor(z, p, g, u, Ghost(s), Ghost(bh), Ghost(bal));
                    proof {
                        bh = b@;
                        fuel = (fuel - 1) as nat;
                    }
                    z = g;
                } else {
                    let mut zz = z;
                    let mut pp = p;
                    if prec.right == z {
                        let sh = self.fix_align_left(z, p, g, Ghost(s), Ghost(bh), Ghost(bal));
                        proof {
                            s = sh@;
                        }
                        zz = p;
                        pp = z;
                    }
                    let ghost r1 = self@;
                    let fin = self.fix_finish_left(zz, pp, g, Ghost(s), Ghost(bh), Ghost(bal));
                    proof {
                        s = fin.0@;
                        bh = fin.1@;
                        lemma_same_orders_trans(r0, r1, self@);
                        lemma_tracked_trans(r0, r1, self@);
                        lemma_colored_fix(self@, bh, zz);
                    }
                    z = zz;
                    proof {
                        lemma_same_orders_trans(old(self)@, r0, self@);
                        lemma_tracked_trans(old(self)@, r0, self@);
                    }
                    break ;
                }
            } else {
                let u = grec.left;
                let uncle_red = u != 0 && self.rec(u).color == Color::Red;
                if uncle_red {
                    let b = self.fix_recolor(z, p, g, u, Ghost(s), Ghost(bh), Ghost(bal));
                    proof {
                        bh = b@;
                        fuel = (fuel - 1) as nat;
                    }
                    z = g;
                } else {
                    let mut zz = z;
                    let mut pp = p;
                    if prec.left == z {
                        let sh = self.fix_align_right(z, p, g, Ghost(s), Ghost(bh), Ghost(bal));
                        proof {
                            s = sh@;
                        }
                        zz = p;
                        pp = z;
                    }
                    let ghost r1 = self@;
                    let fin = self.fix_finish_right(zz, pp, g, Ghost(s), Ghost(bh), Ghost(bal));
                    proof {
                        s = fin.0@;
                        bh = fin.1@;
                        lemma_same_orders_trans(r0, r1, self@);
                        lemma_tracked_trans(r0, r1, self@);
                        lemma_colored_fix(self@, bh, zz);
                    }
                    z = zz;
                    proof {
                        lemma_same_orders_trans(old(self)@, r0, self@);
                        lemma_tracked_trans(old(self)@, r0, self@);
                    }
                    break ;
                }
            }
            proof {
                lemma_same_orders_trans(old(self)@, r0, self@);
                lemma_tracked_trans(old(self)@, r0, self@);
            }
        }
        let ghost r2 = self@;
        let b = self.finish_root(z, Ghost(s), Ghost(bh), Ghost(bal));
        proof {
            assert(same_orders(r2, self@));
            assert(tracked_from(r2, self@));
            lemma_same_orders_trans(old(self)@, r2, self@);
            lemma_tracked_trans(old(self)@, r2, self@);
        }
        (Ghost(s), b)
    }
}

/// The repair has come to its end at `z`: it is the root, or its parent is
/// not red, or its parent is the root.
pub open spec fn repaired(recs: Seq<Record>, z: usize) -> bool {
    let p = recs[z as int].parent;
    p == 0 || recs[p as int].color != Color::Red || recs[p as int].parent == 0
}

/// A red record in a red-black tree is a place where the repair may stand.
pub proof fn lemma_colored_fix(recs: Seq<Record>, bh: Seq<nat>, z: usize)
    requires
        recs[z as int].color == Color::Red,
    ensures
        colored(recs, bh) ==> fix_inv(recs, bh, z),
{
    if colored(recs, bh) {
        assert forall|a: int| 0 < a < recs.len() implies #[trigger] red_ok_but(recs, a, z) by {
            assert(red_ok(recs, a));
        }
    }
}

} // verus!
