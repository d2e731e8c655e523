//! Deletion: reduce to a record with at most one child, restore the colours
//! if a black leaf is to go, and take the record out.

use vstd::prelude::*;
use crate::book::OrderBook;
use crate::insert::{lemma_recolored, recolored};
use crate::rebalance::{lemma_recolored_keeps, rebalanced};
use crate::record::{key_gt, vacant, Address, Color, Record};
use crate::remove::{
    colored_without, lemma_free_leaf, lemma_without_leaf_colors, lemma_without_parent_colors,
    lemma_without_red_safe, lemma_without_sorted, only_child, shape_without, sorted_but,
    without,
};
use crate::shape::{
    colored, is_red, lemma_inorder, lemma_same_orders_trans, lemma_tracked_trans, linked, live, red_safe,
    same_orders, slot_ok, structured, tracked_from, Shape,
};
use crate::swap::{
    lemma_swapped_at, lemma_swapped_colors, lemma_swapped_keeps, shape_swapped, swap_ready,
    swapped,
};

verus! {

/// Why a deletion was refused. The book is left as it was.
#[derive(Clone, Copy, Debug, PartialEq, Eq, Structural)]
pub enum DeleteError {
    /// The address does not hold a record of the tree.
    NotFound,
    /// A black leaf was to be removed and the sibling that a red-black tree
    /// would have beside it is absent: the tree is not balanced.
    MissingSibling,
}

/// The record reached from `a` by following left links, at most `fuel` of
/// them.
pub open spec fn leftmost(recs: Seq<Record>, a: usize, fuel: nat) -> usize
    decreases fuel,
{
    if fuel == 0 || a >= recs.len() || recs[a as int].left == 0 {
        a
    } else {
        leftmost(recs, recs[a as int].left, (fuel - 1) as nat)
    }
}

/// The record whose place in the tree is given up when `addr` is deleted:
/// `addr` itself if it has at most one child, else its in-order successor,
/// the leftmost record of its right subtree.
pub open spec fn removal_site(recs: Seq<Record>, addr: usize) -> usize {
    if recs[addr as int].left != 0 && recs[addr as int].right != 0 {
        leftmost(recs, recs[addr as int].right, recs.len())
    } else {
        addr
    }
}

/// The other child of the parent of `v`.
pub open spec fn sibling(recs: Seq<Record>, v: usize) -> usize {
    let p = recs[v as int].parent;
    if recs[p as int].left == v {
        recs[p as int].right
    } else {
        recs[p as int].left
    }
}

/// The child of the sibling of `v` on the side of `v`.
pub open spec fn near_nephew(recs: Seq<Record>, v: usize) -> usize {
    let p = recs[v as int].parent;
    let s = sibling(recs, v);
    if recs[p as int].left == v {
        recs[s as int].left
    } else {
        recs[s as int].right
    }
}

/// The child of the sibling of `v` on the side away from `v`.
pub open spec fn far_nephew(recs: Seq<Record>, v: usize) -> usize {
    let p = recs[v as int].parent;
    let s = sibling(recs, v);
    if recs[p as int].left == v {
        recs[s as int].right
    } else {
        recs[s as int].left
    }
}

/// `v` is a black leaf below the root.
pub open spec fn black_leaf_below(recs: Seq<Record>, v: usize) -> bool {
    &&& recs[v as int].color == Color::Black
    &&& recs[v as int].left == 0
    &&& recs[v as int].right == 0
    &&& recs[v as int].parent != 0
}

/// `v` is a black leaf below the root whose removal cannot be repaired
/// because the sibling it needs is absent: it has no sibling, or a red
/// sibling without a child on the side of `v`.
pub open spec fn sibling_missing_at(recs: Seq<Record>, v: usize) -> bool {
    &&& black_leaf_below(recs, v)
    &&& (sibling(recs, v) == 0 || (recs[sibling(recs, v) as int].color == Color::Red
        && near_nephew(recs, v) == 0))
}

/// `v` is a black leaf whose parent and sibling are black, whose sibling
/// has no red child, and whose parent is not the root. Removing it
/// recolours the sibling and ends there, which leaves the paths through the
/// parent one black record short.
pub open spec fn loses_balance_at(recs: Seq<Record>, v: usize) -> bool {
    let p = recs[v as int].parent;
    &&& black_leaf_below(recs, v)
    &&& sibling(recs, v) != 0
    &&& recs[sibling(recs, v) as int].color != Color::Red
    &&& !is_red(recs, far_nephew(recs, v))
    &&& !is_red(recs, near_nephew(recs, v))
    &&& recs[p as int].color != Color::Red
    &&& recs[p as int].parent != 0
}

/// The store after `addr`, which has at most one child, left the tree. An
/// only child first turns black; around a black leaf below the root the
/// colours are first restored.
pub open spec fn removed(recs: Seq<Record>, addr: usize) -> Seq<Record> {
    let v = recs[addr as int];
    let r = if v.left != 0 || v.right != 0 {
        recolored(recs, only_child(recs, addr), Color::Black)
    } else if v.parent != 0 && v.color == Color::Black {
        rebalanced(recs, addr)
    } else {
        recs
    };
    without(r, addr)
}

/// The store after the record at `addr` was deleted: it exchanges its place
/// with its in-order successor if it has two children, and is then taken
/// out.
pub open spec fn deleted(recs: Seq<Record>, addr: usize) -> Seq<Record> {
    let site = removal_site(recs, addr);
    if site != addr {
        removed(swapped(recs, addr, site), addr)
    } else {
        removed(recs, addr)
    }
}

/// The stores hold the same orders at every address but `x`.
pub open spec fn same_orders_but(a: Seq<Record>, b: Seq<Record>, x: usize) -> bool {
    &&& a.len() == b.len()
    &&& forall|i: int|
        0 <= i < a.len() && i != x ==> {
            &&& (#[trigger] b[i]).quantity == a[i].quantity
            &&& b[i].price == a[i].price
            &&& b[i].time == a[i].time
            &&& b[i].order_id == a[i].order_id
        }
}

/// An address is in the list exactly if the shape counts it as in the tree.
pub proof fn lemma_live_contains(recs: Seq<Record>, s: Shape, a: usize)
    requires
        linked(recs, s),
    ensures
        s.order.contains(a) <==> live(s, a as int),
        live(s, a as int) ==> s.order.index_of(a) == s.pos[a as int],
        live(s, a as int) <==> 0 < a < recs.len() && (recs[a as int].parent != 0 || recs[0].right
            == a),
{
    if s.order.contains(a) {
        let i = choose|i: int| 0 <= i < s.order.len() && s.order[i] == a;
        assert(s.pos[s.order[i] as int] == i);
    }
    if 0 < a < recs.len() {
        assert(slot_ok(recs, s, a as int));
    }
    if live(s, a as int) {
        assert(s.order[s.pos[a as int]] == a);
        let j = s.order.index_of(a);
        assert(s.order[j] == a);
        assert(s.pos[s.order[j] as int] == j);
    }
    if recs[0].right != 0 {
        assert(slot_ok(recs, s, recs[0].right as int));
    }
}

/// A list that never descends among the records other than `x` stays so
/// in a store that holds the same orders.
pub proof fn lemma_sorted_but_same(a: Seq<Record>, b: Seq<Record>, order: Seq<usize>, x: usize)
    requires
        sorted_but(a, order, x),
        same_orders(a, b),
        forall|i: int| 0 <= i < order.len() ==> (#[trigger] order[i]) < a.len(),
    ensures
        sorted_but(b, order, x),
{
    assert forall|i: int, j: int|
        0 <= i < j < order.len() && order[i] != x && order[j] != x implies !key_gt(
        #[trigger] b[order[i] as int],
        #[trigger] b[order[j] as int],
    ) by {
        assert(order[i] < a.len() && order[j] < a.len());
        assert(!key_gt(a[order[i] as int], a[order[j] as int]));
    }
}

/// After the exchange, `a` stands where `b` stood: what held of the place
/// of `b` now holds of the place of `a`.
pub proof fn lemma_swapped_site(recs: Seq<Record>, s: Shape, a: usize, b: usize)
    requires
        linked(recs, s),
        swap_ready(recs, s, a, b),
    ensures
        black_leaf_below(swapped(recs, a, b), a) == black_leaf_below(recs, b),
        sibling_missing_at(swapped(recs, a, b), a) == sibling_missing_at(recs, b),
        loses_balance_at(swapped(recs, a, b), a) == loses_balance_at(recs, b),
        swapped(recs, a, b)[a as int].color == recs[b as int].color,
        swapped(recs, a, b)[a as int].left == 0,
        swapped(recs, a, b)[a as int].right == recs[b as int].right,
        swapped(recs, a, b)[a as int].parent != 0,
{
    lemma_swapped_at(recs, s, a, b);
    let ra = recs[a as int];
    let rb = recs[b as int];
    assert(slot_ok(recs, s, a as int));
    assert(slot_ok(recs, s, b as int));
    assert(slot_ok(recs, s, ra.left as int));
    assert(slot_ok(recs, s, ra.right as int));
    assert(slot_ok(recs, s, rb.parent as int));
    let sb = sibling(recs, b);
    if sb != 0 {
        assert(slot_ok(recs, s, sb as int));
        if recs[sb as int].left != 0 {
            assert(slot_ok(recs, s, recs[sb as int].left as int));
        }
        if recs[sb as int].right != 0 {
            assert(slot_ok(recs, s, recs[sb as int].right as int));
        }
    }
}

impl OrderBook {
    /// The in-order successor of `addr`, which has a right child: the
    /// leftmost record of its right subtree.
    pub(crate) fn successor(&self, addr: usize, Ghost(s): Ghost<Shape>) -> (b: usize)
        requires
            linked(self@, s),
            live(s, addr as int),
            self@[addr as int].right != 0,
        ensures
            b == leftmost(self@, self@[addr as int].right, self@.len()),
            live(s, b as int),
            self@[b as int].left == 0,
            s.pos[b as int] == s.pos[addr as int] + 1,
            self@[b as int].parent == addr || self@[self@[b as int].parent as int].left == b,
    {
        proof {
            assert(slot_ok(self@, s, addr as int));
            assert(slot_ok(self@, s, self@[addr as int].right as int));
        }
        let mut cur = self.rec(addr).right;
        let ghost mut fuel: nat = self@.len();
        loop
            invariant
                linked(self@, s),
                live(s, addr as int),
                live(s, cur as int),
                s.lo[cur as int] == s.pos[addr as int] + 1,
                self@[cur as int].parent == addr || self@[self@[cur as int].parent as int].left
                    == cur,
                leftmost(self@, self@[addr as int].right, self@.len()) == leftmost(
                    self@,
                    cur,
                    fuel,
                ),
                fuel >= s.hi[cur as int] - s.lo[cur as int],
            decreases s.hi[cur as int] - s.lo[cur as int],
        {
            proof {
                assert(slot_ok(self@, s, cur as int));
            }
            let l = self.rec(cur).left;
            if l == 0 {
                return cur;
            }
            proof {
                assert(slot_ok(self@, s, l as int));
                fuel = (fuel - 1) as nat;
            }
            cur = l;
        }
    }

    /// Whether removing the record at the place of `v` would need a
    /// sibling that is absent.
    pub(crate) fn sibling_missing(&self, v: usize, Ghost(s): Ghost<Shape>) -> (m: bool)
        requires
            linked(self@, s),
            live(s, v as int),
        ensures
            m == sibling_missing_at(self@, v),
    {
        proof {
            assert(slot_ok(self@, s, v as int));
        }
        let r = self.rec(v);
        if r.color == Color::Black && r.left == 0 && r.right == 0 && r.parent != 0 {
            proof {
                assert(slot_ok(self@, s, r.parent as int));
            }
            let pr = self.rec(r.parent);
            let on_left = pr.left == v;
            let sib = if on_left {
                pr.right
            } else {
                pr.left
            };
            if sib == 0 {
                return true;
            }
            proof {
                assert(slot_ok(self@, s, sib as int));
            }
            let sr = self.rec(sib);
            let near = if on_left {
                sr.left
            } else {
                sr.right
            };
            sr.color == Color::Red && near == 0
        } else {
            false
        }
    }

    /// The record whose place is given up when `addr` goes.
    pub(crate) fn site_of(&self, addr: usize, Ghost(s): Ghost<Shape>) -> (site: usize)
        requires
            linked(self@, s),
            live(s, addr as int),
        ensures
            site == removal_site(self@, addr),
            live(s, site as int),
            site != addr ==> swap_ready(self@, s, addr, site),
            site == addr ==> self@[addr as int].left == 0 || self@[addr as int].right == 0,
    {
        proof {
            assert(slot_ok(self@, s, addr as int));
        }
        let r = self.rec(addr);
        if r.left != 0 && r.right != 0 {
            self.successor(addr, Ghost(s))
        } else {
            addr
        }
    }

    /// Brings `addr` to the place of `site`: exchanges the two if they
    /// differ.
    pub(crate) fn take_place(
        &mut self,
        addr: usize,
        site: usize,
        Ghost(s): Ghost<Shape>,
        Ghost(bh): Ghost<Seq<nat>>,
        Ghost(bal): Ghost<bool>,
    ) -> (out: (Ghost<Shape>, Ghost<Seq<nat>>))
        requires
            structured(old(self)@, s),
            live(s, addr as int),
            site != addr ==> swap_ready(old(self)@, s, addr, site),
            site == addr ==> old(self)@[addr as int].left == 0 || old(self)@[addr as int].right
                == 0,
            bal ==> colored(old(self)@, bh),
        ensures
            linked(final(self)@, out.0@),
            sorted_but(final(self)@, out.0@.order, addr),
            live(out.0@, addr as int),
            final(self)@[addr as int].left == 0 || final(self)@[addr as int].right == 0,
            out.0@.order.remove(out.0@.pos[addr as int]) == s.order.remove(s.pos[addr as int]),
            same_orders(old(self)@, final(self)@),
            tracked_from(old(self)@, final(self)@),
            sibling_missing_at(final(self)@, addr) == sibling_missing_at(old(self)@, site),
            loses_balance_at(final(self)@, addr) == loses_balance_at(old(self)@, site),
            final(self)@ == if site != addr {
                swapped(old(self)@, addr, site)
            } else {
                old(self)@
            },
            bal ==> colored(final(self)@, out.1@),
    {
        if site != addr {
            let ghost r0 = self@;
            self.swap_down(addr, site, Ghost(s));
            let ghost s1 = shape_swapped(s, addr, site);
            let ghost bh1 = bh.update(site as int, bh[addr as int]).update(
                addr as int,
                bh[site as int],
            );
            proof {
                lemma_swapped_keeps(r0, s, addr, site);
                lemma_swapped_site(r0, s, addr, site);
                if bal {
                    lemma_swapped_colors(r0, s, addr, site, bh);
                }
                assert(slot_ok(r0, s, addr as int));
                assert(slot_ok(r0, s, site as int));
                let i = s.pos[addr as int];
                assert(s.order[i] == addr);
                assert(s.order[i + 1] == site);
                assert(s1.order.remove(i + 1) =~= s.order.remove(i));
            }
            (Ghost(s1), Ghost(bh1))
        } else {
            (Ghost(s), Ghost(bh))
        }
    }

    /// Takes `addr`, which has at most one child, out of the tree: its
    /// child takes its place and turns black, or the colours are restored
    /// around it if it is a black leaf below the root.
    pub(crate) fn remove_reduced(
        &mut self,
        addr: usize,
        Ghost(s): Ghost<Shape>,
        Ghost(bh): Ghost<Seq<nat>>,
        Ghost(bal): Ghost<bool>,
    ) -> (out: (Ghost<Shape>, Ghost<Seq<nat>>))
        requires
            linked(old(self)@, s),
            sorted_but(old(self)@, s.order, addr),
            live(s, addr as int),
            old(self)@[addr as int].left == 0 || old(self)@[addr as int].right == 0,
            !sibling_missing_at(old(self)@, addr),
            bal ==> colored(old(self)@, bh),
        ensures
            structured(final(self)@, out.0@),
            out.0@.order == s.order.remove(s.pos[addr as int]),
            vacant(final(self)@[addr as int]),
            same_orders_but(old(self)@, final(self)@, addr),
            tracked_from(old(self)@, final(self)@),
            final(self)@ == removed(old(self)@, addr),
            bal && !loses_balance_at(old(self)@, addr) ==> colored(final(self)@, out.1@),
            bal ==> red_safe(final(self)@),
    {
        let ghost r1 = self@;
        proof {
            assert(slot_ok(r1, s, addr as int));
        }
        let v = self.rec(addr);
        let ghost mut s2 = s;
        let ghost mut bh2 = bh;
        if v.left != 0 || v.right != 0 {
            let c = if v.left != 0 {
                v.left
            } else {
                v.right
            };
            proof {
                assert(slot_ok(r1, s, c as int));
            }
            self.set_color(c, Color::Black);
            proof {
                lemma_recolored(r1, s, c, Color::Black);
                lemma_recolored_keeps(r1, c, Color::Black);
                if bal {
                    lemma_without_parent_colors(r1, s, addr, bh);
                    bh2 = bh.update(c as int, 1);
                }
            }
        } else if v.parent != 0 && v.color == Color::Black {
            let o = self.rebalance(addr, Ghost(s), Ghost(bh), Ghost(bal));
            proof {
                s2 = o.0@;
                bh2 = o.1@;
            }
        } else {
            proof {
                if bal {
                    lemma_free_leaf(r1, s, addr, bh);
                }
            }
        }
        let ghost r2 = self@;
        proof {
            assert forall|i: int| 0 <= i < s.order.len() implies (#[trigger] s.order[i])
                < r1.len() by {}
            lemma_sorted_but_same(r1, r2, s.order, addr);
            lemma_without_sorted(r2, s2, addr);
        }
        self.unlink(addr, Ghost(s2));
        let ghost s3 = shape_without(s2, addr, s2.pos[addr as int]);
        let ghost bh3 = bh2.update(addr as int, 1);
        proof {
            assert(tracked_from(r2, self@));
            lemma_tracked_trans(r1, r2, self@);
            assert(same_orders_but(r1, self@, addr)) by {
                assert forall|i: int| 0 <= i < r1.len() && i != addr implies {
                    &&& (#[trigger] self@[i]).quantity == r1[i].quantity
                    &&& self@[i].price == r1[i].price
                    &&& self@[i].time == r1[i].time
                    &&& self@[i].order_id == r1[i].order_id
                } by {
                    assert(r2[i].quantity == r1[i].quantity);
                }
            }
            if bal && !loses_balance_at(r1, addr) {
                if v.left != 0 || v.right != 0 {
                } else {
                    lemma_without_leaf_colors(r2, s2, addr, bh2);
                }
            }
            if bal {
                if v.left != 0 || v.right != 0 {
                } else if v.parent != 0 && v.color == Color::Black {
                    lemma_without_red_safe(r2, s2, addr);
                } else {
                    lemma_without_leaf_colors(r2, s2, addr, bh2);
                }
            }
        }
        (Ghost(s3), Ghost(bh3))
    }

    /// Removes the record at `addr` from the tree and clears its slot; the
    /// address is never handed out again.
    ///
    /// A record with two children first exchanges its place with its
    /// in-order successor. A record with one child gives its place to the
    /// child, which turns black. A red leaf, or a leaf that is the root, is
    /// simply taken out. Before a black leaf below the root is taken out,
    /// the colours around it are restored by the rotations and recolourings
    /// that its sibling and nephews call for.
    ///
    /// The deletion is refused, and the book left as it is, if `addr` is
    /// not in the tree or if the black leaf to go lacks the sibling that a
    /// balanced tree would give it.
    pub fn delete(&mut self, addr: Address) -> (res: Result<(), DeleteError>)
        requires
            old(self).wf(),
        ensures
            final(self).wf(),
            res == Err::<(), DeleteError>(DeleteError::NotFound) <==> !old(self).contains(addr),
            res == Err::<(), DeleteError>(DeleteError::MissingSibling) <==> old(self).contains(addr)
                && sibling_missing_at(old(self)@, removal_site(old(self)@, addr)),
            res is Err ==> final(self)@ == old(self)@,
            old(self).is_red_black() && old(self).contains(addr) ==> res is Ok,
            res is Ok ==> {
                &&& final(self).inorder() == old(self).inorder().remove(
                    old(self).inorder().index_of(addr),
                )
                &&& vacant(final(self)@[addr as int])
                &&& same_orders_but(old(self)@, final(self)@, addr)
                &&& tracked_from(old(self)@, final(self)@)
                &&& final(self)@ == deleted(old(self)@, addr)
            },
            res is Ok && old(self).is_red_black() && !loses_balance_at(
                old(self)@,
                removal_site(old(self)@, addr),
            ) ==> final(self).is_red_black(),
            res is Ok && old(self).is_red_black() ==> red_safe(final(self)@),
    {
        let ghost r0 = self@;
        let ghost s0 = choose|s: Shape| structured(r0, s);
        let ghost bal = self.is_red_black();
        let ghost bh0 = choose|bh: Seq<nat>| colored(r0, bh);
        proof {
            lemma_inorder(r0, s0);
            lemma_live_contains(r0, s0, addr);
        }
        if addr == 0 || addr >= self.len() {
            return Err(DeleteError::NotFound);
        }
        let r = self.rec(addr);
        if r.parent == 0 && self.rec(0).right != addr {
            return Err(DeleteError::NotFound);
        }
        let site = self.site_of(addr, Ghost(s0));
        proof {
            if bal {
                self.lemma_delete_succeeds(addr);
            }
        }
        if self.sibling_missing(site, Ghost(s0)) {
            return Err(DeleteError::MissingSibling);
        }
        let o1 = self.take_place(addr, site, Ghost(s0), Ghost(bh0), Ghost(bal));
        let ghost r1 = self@;
        let o2 = self.remove_reduced(addr, o1.0, o1.1, Ghost(bal));
        proof {
            lemma_inorder(self@, o2.0@);
            lemma_tracked_trans(r0, r1, self@);
            assert(same_orders_but(r0, self@, addr)) by {
                assert forall|i: int| 0 <= i < r0.len() && i != addr implies {
                    &&& (#[trigger] self@[i]).quantity == r0[i].quantity
                    &&& self@[i].price == r0[i].price
                    &&& self@[i].time == r0[i].time
                    &&& self@[i].order_id == r0[i].order_id
                } by {
                    assert(r1[i].quantity == r0[i].quantity);
                }
            }
            if bal && !loses_balance_at(r0, site) {
                assert(colored(self@, o2.1@));
            }
        }
        Ok(())
    }

    /// Restores the colours around the black leaf `n`, which is about to
    /// leave the tree and stays linked meanwhile.
    #[verifier::rlimit(30)]
    pub(crate) fn rebalance(
        &mut self,
        n: usize,
        Ghost(s): Ghost<Shape>,
        Ghost(bh): Ghost<Seq<nat>>,
        Ghost(bal): Ghost<bool>,
    ) -> (out: (Ghost<Shape>, Ghost<Seq<nat>>))
        requires
            linked(old(self)@, s),
            live(s, n as int),
            black_leaf_below(old(self)@, n),
            !sibling_missing_at(old(self)@, n),
            bal ==> colored(old(self)@, bh),
        ensures
            linked(final(self)@, out.0@),
            out.0@.order == s.order,
            out.0@.pos == s.pos,
            same_orders(old(self)@, final(self)@),
            tracked_from(old(self)@, final(self)@),
            final(self)@[n as int] == old(self)@[n as int],
            final(self)@ == rebalanced(old(self)@, n),
            bal && !loses_balance_at(old(self)@, n) ==> colored_without(
                final(self)@,
                out.1@,
                n,
            ),
            bal ==> red_safe(final(self)@),
    {
        let ghost r0 = self@;
        proof {
            assert(slot_ok(r0, s, n as int));
        }
        let p = self.rec(n).parent;
        proof {
            assert(slot_ok(r0, s, p as int));
        }
        let pr = self.rec(p);
        if pr.left == n {
            let mut sib = pr.right;
            let ghost mut s1 = s;
            let ghost mut bh1 = bh;
            proof {
                assert(slot_ok(r0, s, sib as int));
            }
            let red_sibling = self.rec(sib).color == Color::Red;
            if red_sibling {
                let o = self.d3_left(n, p, sib, Ghost(s), Ghost(bh), Ghost(bal));
                proof {
                    s1 = o.0@;
                    bh1 = o.1@;
                }
                sib = self.rec(p).right;
            }
            let ghost r1 = self@;
            proof {
                assert(slot_ok(r1, s1, n as int));
                assert(slot_ok(r1, s1, p as int));
                assert(slot_ok(r1, s1, sib as int));
            }
            let sr = self.rec(sib);
            let far = sr.right;
            let near = sr.left;
            proof {
                if far != 0 {
                    assert(slot_ok(r1, s1, far as int));
                }
                if near != 0 {
                    assert(slot_ok(r1, s1, near as int));
                }
            }
            let far_red = far != 0 && self.rec(far).color == Color::Red;
            if far_red {
                let o = self.d6_left(n, p, sib, far, Ghost(s1), Ghost(bh1), Ghost(bal));
                proof {
                    lemma_same_orders_trans(r0, r1, self@);
                    lemma_tracked_trans(r0, r1, self@);
                }
                o
            } else {
                let near_red = near != 0 && self.rec(near).color == Color::Red;
                if near_red {
                    let o5 = self.d5_left(n, p, sib, near, Ghost(s1), Ghost(bh1), Ghost(bal));
                    let ghost r2 = self@;
                    let o = self.d6_left(n, p, near, sib, o5.0, o5.1, Ghost(bal));
                    proof {
                        lemma_same_orders_trans(r0, r1, r2);
                        lemma_tracked_trans(r0, r1, r2);
                        lemma_same_orders_trans(r0, r2, self@);
                        lemma_tracked_trans(r0, r2, self@);
                    }
                    o
                } else {
                    let b = self.d4(n, p, sib, Ghost(s1), Ghost(bh1), Ghost(bal));
                    proof {
                        lemma_same_orders_trans(r0, r1, self@);
                        lemma_tracked_trans(r0, r1, self@);
                    }
                    (Ghost(s1), b)
                }
            }
        } else {
            let mut sib = pr.left;
            let ghost mut s1 = s;
            let ghost mut bh1 = bh;
            proof {
                assert(slot_ok(r0, s, sib as int));
            }
            let red_sibling = self.rec(sib).color == Color::Red;
            if red_sibling {
                let o = self.d3_right(n, p, sib, Ghost(s), Ghost(bh), Ghost(bal));
                proof {
                    s1 = o.0@;
                    bh1 = o.1@;
                }
                sib = self.rec(p).left;
            }
            let ghost r1 = self@;
            proof {
                assert(slot_ok(r1, s1, n as int));
                assert(slot_ok(r1, s1, p as int));
                assert(slot_ok(r1, s1, sib as int));
            }
            let sr = self.rec(sib);
            let far = sr.left;
            let near = sr.right;
            proof {
                if far != 0 {
                    assert(slot_ok(r1, s1, far as int));
                }
                if near != 0 {
                    assert(slot_ok(r1, s1, near as int));
                }
            }
            let far_red = far != 0 && self.rec(far).color == Color::Red;
            if far_red {
                let o = self.d6_right(n, p, sib, far, Ghost(s1), Ghost(bh1), Ghost(bal));
                proof {
                    lemma_same_orders_trans(r0, r1, self@);
                    lemma_tracked_trans(r0, r1, self@);
                }
                o
            } else {
                let near_red = near != 0 && self.rec(near).color == Color::Red;
                if near_red {
                    let o5 = self.d5_right(n, p, sib, near, Ghost(s1), Ghost(bh1), Ghost(bal));
                    let ghost r2 = self@;
                    let o = self.d6_right(n, p, near, sib, o5.0, o5.1, Ghost(bal));
                    proof {
                        lemma_same_orders_trans(r0, r1, r2);
                        lemma_tracked_trans(r0, r1, r2);
                        lemma_same_orders_trans(r0, r2, self@);
                        lemma_tracked_trans(r0, r2, self@);
                    }
                    o
                } else {
                    let b = self.d4(n, p, sib, Ghost(s1), Ghost(bh1), Ghost(bal));
                    proof {
                        lemma_same_orders_trans(r0, r1, self@);
                        lemma_tracked_trans(r0, r1, self@);
                    }
                    (Ghost(s1), b)
                }
            }
        }
    }
}

} // verus!
