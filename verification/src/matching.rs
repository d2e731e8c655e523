//! The matching engine: crossing an aggressive order against the book.

use vstd::prelude::*;
use crate::book::OrderBook;
use crate::delete::{
    deleted, lemma_live_contains, loses_balance_at, removal_site, sibling_missing_at,
    DeleteError,
};
use crate::record::{key_gt, Address, Record};
use crate::shape::{
    colored, height_ok, lemma_inorder, lemma_tracked_trans, linked, live, red_ok, slot_ok,
    structured, tracked_from, Shape,
};

verus! {

/// The sum of the quantities of the records listed in `order`.
pub open spec fn quantity_sum(recs: Seq<Record>, order: Seq<usize>) -> int
    decreases order.len(),
{
    if order.len() == 0 {
        0
    } else {
        quantity_sum(recs, order.drop_last()) + recs[order.last() as int].quantity
    }
}

/// The records listed in `order` hold the same orders in both stores.
pub open spec fn same_listed(a: Seq<Record>, b: Seq<Record>, order: Seq<usize>) -> bool {
    forall|i: int|
        0 <= i < order.len() ==> {
            &&& (#[trigger] b[order[i] as int]).quantity == a[order[i] as int].quantity
            &&& b[order[i] as int].price == a[order[i] as int].price
            &&& b[order[i] as int].time == a[order[i] as int].time
            &&& b[order[i] as int].order_id == a[order[i] as int].order_id
        }
}

/// Stores that hold the same orders at the listed addresses give the same
/// sum.
pub proof fn lemma_quantity_sum_same(a: Seq<Record>, b: Seq<Record>, order: Seq<usize>)
    requires
        same_listed(a, b, order),
    ensures
        quantity_sum(a, order) == quantity_sum(b, order),
    decreases order.len(),
{
    if order.len() > 0 {
        let o = order.drop_last();
        assert forall|i: int| 0 <= i < o.len() implies {
            &&& (#[trigger] b[o[i] as int]).quantity == a[o[i] as int].quantity
            &&& b[o[i] as int].price == a[o[i] as int].price
            &&& b[o[i] as int].time == a[o[i] as int].time
            &&& b[o[i] as int].order_id == a[o[i] as int].order_id
        } by {
            assert(o[i] == order[i]);
            assert(b[order[i] as int].quantity == a[order[i] as int].quantity);
        }
        lemma_quantity_sum_same(a, b, o);
        let k = order.len() - 1;
        assert(b[order[k] as int].quantity == a[order[k] as int].quantity);
    }
}

/// The store after the record at `b` took the quantity `q`.
pub open spec fn requantified(recs: Seq<Record>, b: usize, q: u64) -> Seq<Record> {
    recs.update(b as int, (Record { quantity: q, dirty: true, ..recs[b as int] }))
}

/// A change of quantity leaves the tree and its colours as they are.
pub proof fn lemma_requantified(recs: Seq<Record>, s: Shape, b: usize, q: u64)
    requires
        structured(recs, s),
        live(s, b as int),
    ensures
        structured(requantified(recs, b, q), s),
        forall|bh: Seq<nat>| colored(recs, bh) ==> colored(requantified(recs, b, q), bh),
{
    let new = requantified(recs, b, q);
    assert forall|x: int| 0 < x < new.len() implies #[trigger] slot_ok(new, s, x) by {
        assert(slot_ok(recs, s, x));
    }
    assert forall|i: int| 0 <= i < s.order.len() implies 0 < (#[trigger] s.order[i]) < new.len()
        && s.pos[s.order[i] as int] == i by {
        assert(0 < s.order[i] < recs.len());
    }
    assert forall|i: int, j: int| 0 <= i < j < s.order.len() implies !key_gt(
        #[trigger] new[s.order[i] as int],
        #[trigger] new[s.order[j] as int],
    ) by {
        assert(0 < s.order[i] < recs.len());
        assert(0 < s.order[j] < recs.len());
        assert(!key_gt(recs[s.order[i] as int], recs[s.order[j] as int]));
    }
    assert forall|bh: Seq<nat>| colored(recs, bh) implies colored(new, bh) by {
        assert forall|x: int| 0 < x < new.len() implies #[trigger] height_ok(new, bh, x) by {
            assert(height_ok(recs, bh, x));
            assert(slot_ok(recs, s, x));
        }
        assert forall|x: int| 0 < x < new.len() implies #[trigger] red_ok(new, x) by {
            assert(red_ok(recs, x));
            assert(slot_ok(recs, s, x));
        }
    }
}

/// The record reached from `a` by following right links, at most `fuel`
/// of them.
pub open spec fn rightmost(recs: Seq<Record>, a: usize, fuel: nat) -> usize
    decreases fuel,
{
    if fuel == 0 || a >= recs.len() || recs[a as int].right == 0 {
        a
    } else {
        rightmost(recs, recs[a as int].right, (fuel - 1) as nat)
    }
}

/// The address of the best resting order: the rightmost record reachable
/// from the root, or 0 in an empty book.
pub open spec fn best_of(recs: Seq<Record>) -> usize {
    if recs[0].right == 0 {
        0
    } else {
        rightmost(recs, recs[0].right, recs.len())
    }
}

/// The best resting order crosses `price`, fits into `remaining`, and
/// cannot be deleted because the sibling that its removal needs is absent.
pub open spec fn stalls(recs: Seq<Record>, remaining: u64, price: u64) -> bool {
    let b = best_of(recs);
    &&& b != 0
    &&& recs[b as int].price >= price
    &&& recs[b as int].quantity <= remaining
    &&& sibling_missing_at(recs, removal_site(recs, b))
}

/// The store and the remaining quantity at the end of a matching pass that
/// starts with `remaining` to fill at `price`. While the best resting order
/// crosses and fits, it is deleted and its quantity taken off; a best order
/// that crosses and does not fit gives what remains. The pass stops early
/// where it stalls. `fuel` bounds the number of orders consumed.
pub open spec fn matched(recs: Seq<Record>, remaining: u64, price: u64, fuel: nat) -> (
    Seq<Record>,
    u64,
)
    decreases fuel,
{
    let b = best_of(recs);
    let r = recs[b as int];
    if b == 0 || r.price < price {
        (recs, remaining)
    } else if r.quantity <= remaining {
        if fuel == 0 || sibling_missing_at(recs, removal_site(recs, b)) {
            (recs, remaining)
        } else {
            matched(deleted(recs, b), (remaining - r.quantity) as u64, price, (fuel - 1) as nat)
        }
    } else {
        (requantified(recs, b, (r.quantity - remaining) as u64), 0)
    }
}

/// A change of quantity does not move the best resting order.
pub proof fn lemma_best_requantified(recs: Seq<Record>, b: usize, q: u64, a: usize, fuel: nat)
    requires
        b < recs.len(),
    ensures
        rightmost(requantified(recs, b, q), a, fuel) == rightmost(recs, a, fuel),
    decreases fuel,
{
    if fuel > 0 && a < recs.len() && recs[a as int].right != 0 {
        lemma_best_requantified(recs, b, q, recs[a as int].right, (fuel - 1) as nat);
    }
}

/// No deletion of the matching pass loses the balance of the tree: none
/// removes a black leaf whose parent and sibling are black, whose sibling
/// has no red child and whose parent is not the root.
pub open spec fn keeps_balance(recs: Seq<Record>, remaining: u64, price: u64, fuel: nat) -> bool
    decreases fuel,
{
    let b = best_of(recs);
    let r = recs[b as int];
    if b == 0 || r.price < price || r.quantity > remaining || fuel == 0 || sibling_missing_at(
        recs,
        removal_site(recs, b),
    ) {
        true
    } else {
        &&& !loses_balance_at(recs, removal_site(recs, b))
        &&& keeps_balance(
            deleted(recs, b),
            (remaining - r.quantity) as u64,
            price,
            (fuel - 1) as nat,
        )
    }
}

/// What a matching pass leaves when it ends in the ordinary way, having
/// kept the first `m` records of the listing `order`.
///
/// The records after the first `m` were consumed whole: each crossed the
/// incoming price, and together they fit into the incoming quantity. If the
/// last record kept crosses too, it did not fit into what was left, gave
/// that much of its quantity, and nothing remains. Otherwise every record
/// kept is as it was, and what the consumed records did not fill remains.
pub open spec fn crossed(
    old: Seq<Record>,
    new: Seq<Record>,
    order: Seq<usize>,
    m: int,
    incoming_quantity: u64,
    incoming_price: u64,
    remaining: u64,
) -> bool {
    let gone = quantity_sum(old, order) - quantity_sum(old, order.take(m));
    &&& 0 <= m <= order.len()
    &&& 0 <= gone <= incoming_quantity
    &&& forall|i: int| m <= i < order.len() ==> (#[trigger] old[order[i] as int]).price >= incoming_price
    &&& if m > 0 && old[order[m - 1] as int].price >= incoming_price {
        let best = order[m - 1] as int;
        &&& same_listed(old, new, order.take(m - 1))
        &&& old[best].quantity > incoming_quantity - gone
        &&& new[best].quantity == old[best].quantity - (incoming_quantity - gone)
        &&& new[best].price == old[best].price
        &&& new[best].time == old[best].time
        &&& new[best].order_id == old[best].order_id
        &&& new[best].dirty
        &&& remaining == 0
    } else {
        &&& same_listed(old, new, order.take(m))
        &&& remaining == incoming_quantity - gone
    }
}

/// What a matching pass leaves when the deletion of a consumed record was
/// refused: the records after the first `m` were consumed whole, the last
/// record kept crosses and fits into what was left, and its removal needs
/// a sibling that is absent. Every record kept is as it was.
pub open spec fn stalled(
    old: Seq<Record>,
    new: Seq<Record>,
    order: Seq<usize>,
    m: int,
    incoming_quantity: u64,
    incoming_price: u64,
) -> bool {
    let gone = quantity_sum(old, order) - quantity_sum(old, order.take(m));
    &&& 0 < m <= order.len()
    &&& 0 <= gone <= incoming_quantity
    &&& forall|i: int|
        m - 1 <= i < order.len() ==> (#[trigger] old[order[i] as int]).price >= incoming_price
    &&& same_listed(old, new, order.take(m))
    &&& old[order[m - 1] as int].quantity <= incoming_quantity - gone
    &&& sibling_missing_at(new, removal_site(new, order[m - 1]))
}

impl OrderBook {
    /// The sum of the quantities of all resting orders.
    pub open spec fn total_quantity(&self) -> int {
        quantity_sum(self@, self.inorder())
    }

    /// The address of the best resting order, the last of the in-order
    /// listing: the rightmost record reachable from the root. 0 if the book
    /// is empty.
    pub fn best(&self) -> (b: Address)
        requires
            self.wf(),
        ensures
            b == best_of(self@),
            b == 0 <==> self.inorder().len() == 0,
            b != 0 ==> b == self.inorder().last() && self.contains(b),
            b < self@.len(),
    {
        let ghost s = choose|s: Shape| structured(self@, s);
        proof {
            lemma_inorder(self@, s);
        }
        let mut cur = self.rec(0).right;
        if cur == 0 {
            return 0;
        }
        let ghost mut fuel: nat = self@.len();
        proof {
            assert(slot_ok(self@, s, cur as int));
        }
        loop
            invariant
                linked(self@, s),
                live(s, cur as int),
                s.hi[cur as int] == s.order.len(),
                s.order == self.inorder(),
                fuel >= s.hi[cur as int] - s.lo[cur as int],
                best_of(self@) == rightmost(self@, cur, fuel),
            decreases s.hi[cur as int] - s.lo[cur as int],
        {
            proof {
                assert(slot_ok(self@, s, cur as int));
            }
            let r = self.rec(cur).right;
            if r == 0 {
                proof {
                    assert(s.order[s.pos[cur as int]] == cur);
                }
                return cur;
            }
            proof {
                assert(slot_ok(self@, s, r as int));
                fuel = (fuel - 1) as nat;
            }
            cur = r;
        }
    }

    /// Gives the resting order at `b` the quantity `q` and flags it.
    pub(crate) fn requantify(&mut self, b: usize, q: u64)
        requires
            old(self).wf(),
            old(self).contains(b),
        ensures
            final(self)@ == requantified(old(self)@, b, q),
            final(self).wf(),
            final(self).inorder() == old(self).inorder(),
            old(self).is_red_black() ==> final(self).is_red_black(),
    {
        let ghost s = choose|s: Shape| structured(self@, s);
        proof {
            lemma_inorder(self@, s);
            lemma_live_contains(self@, s, b);
        }
        self.set_quantity(b, q);
        proof {
            lemma_requantified(old(self)@, s, b, q);
            lemma_inorder(self@, s);
            if old(self).is_red_black() {
                let bh = choose|bh: Seq<nat>| colored(old(self)@, bh);
                assert(colored(self@, bh));
            }
        }
    }

    /// Crosses an aggressive order against the book.
    ///
    /// While the best resting order crosses the incoming price (its price
    /// is not below it) and fits into what remains of the incoming
    /// quantity, it is consumed whole and deleted. A best order that
    /// crosses and does not fit gives what remains and stays, flagged.
    /// Whatever remains after that is dropped: nothing is rested.
    ///
    /// Returns the filled and the remaining quantity. If the deletion of a
    /// consumed order is refused the pass stops there with that error.
    pub fn match_against_book(&mut self, incoming_quantity: u64, incoming_price: u64) -> (res:
        Result<(u64, u64), DeleteError>)
        requires
            old(self).wf(),
        ensures
            final(self).wf(),
            final(self)@.len() == old(self)@.len(),
            tracked_from(old(self)@, final(self)@),
            final(self).inorder() == old(self).inorder().take(final(self).inorder().len() as int),
            final(self)@ == matched(
                old(self)@,
                incoming_quantity,
                incoming_price,
                old(self)@.len(),
            ).0,
            matched(old(self)@, incoming_quantity, incoming_price, old(self)@.len()).1
                <= incoming_quantity,
            old(self).is_red_black() && keeps_balance(
                old(self)@,
                incoming_quantity,
                incoming_price,
                old(self)@.len(),
            ) ==> final(self).is_red_black() && res is Ok,
            res is Err <==> stalls(
                final(self)@,
                matched(old(self)@, incoming_quantity, incoming_price, old(self)@.len()).1,
                incoming_price,
            ),
            match res {
                Ok((filled, remaining)) => {
                    &&& filled + remaining == incoming_quantity
                    &&& remaining == matched(
                        old(self)@,
                        incoming_quantity,
                        incoming_price,
                        old(self)@.len(),
                    ).1
                    &&& crossed(
                        old(self)@,
                        final(self)@,
                        old(self).inorder(),
                        final(self).inorder().len() as int,
                        incoming_quantity,
                        incoming_price,
                        remaining,
                    )
                    &&& old(self).total_quantity() - final(self).total_quantity() == filled
                },
                Err(e) => {
                    &&& e == DeleteError::MissingSibling
                    &&& stalled(
                        old(self)@,
                        final(self)@,
                        old(self).inorder(),
                        final(self).inorder().len() as int,
                        incoming_quantity,
                        incoming_price,
                    )
                },
            },
    {
        let ghost r0 = self@;
        let ghost o0 = self.inorder();
        let mut remaining = incoming_quantity;
        let ghost mut fuel: nat = self@.len();
        let ghost kb = self.is_red_black() && keeps_balance(
            r0,
            incoming_quantity,
            incoming_price,
            r0.len(),
        );
        proof {
            assert(o0.take(o0.len() as int) =~= o0);
            let s = choose|s: Shape| structured(r0, s);
            lemma_inorder(r0, s);
        }
        loop
            invariant
                self.wf(),
                kb == (old(self).is_red_black() && keeps_balance(
                    r0,
                    incoming_quantity,
                    incoming_price,
                    r0.len(),
                )),
                kb ==> self.is_red_black() && keeps_balance(
                    self@,
                    remaining,
                    incoming_price,
                    fuel,
                ),
                fuel >= self.inorder().len(),
                matched(r0, incoming_quantity, incoming_price, r0.len()) == matched(
                    self@,
                    remaining,
                    incoming_price,
                    fuel,
                ),
                old(self).wf(),
                r0 == old(self)@,
                o0 == old(self).inorder(),
                self@.len() == r0.len(),
                tracked_from(r0, self@),
                self.inorder().len() <= o0.len(),
                self.inorder() == o0.take(self.inorder().len() as int),
                same_listed(r0, self@, self.inorder()),
                forall|i: int|
                    self.inorder().len() <= i < o0.len() ==> (#[trigger] r0[o0[i] as int]).price
                        >= incoming_price,
                remaining <= incoming_quantity,
                incoming_quantity - remaining == quantity_sum(r0, o0) - quantity_sum(
                    r0,
                    self.inorder(),
                ),
            decreases self.inorder().len(),
        {
            let ghost cur = self@;
            let ghost oc = self.inorder();
            let ghost m = oc.len() as int;
            let b = self.best();
            if b == 0 {
                proof {
                    lemma_quantity_sum_same(r0, cur, oc);
                }
                return Ok((incoming_quantity - remaining, remaining));
            }
            let ghost s = choose|s: Shape| structured(cur, s);
            proof {
                lemma_inorder(cur, s);
                lemma_live_contains(cur, s, b);
                assert(oc[m - 1] == b);
                assert(o0[m - 1] == b);
                assert(cur[oc[m - 1] as int].price == r0[oc[m - 1] as int].price);
                assert(oc.drop_last() =~= o0.take(m - 1));
                assert(oc.take(m - 1) =~= o0.take(m - 1));
                assert(same_listed(r0, cur, o0.take(m - 1))) by {
                    assert forall|i: int| 0 <= i < m - 1 implies {
                        &&& (#[trigger] cur[o0.take(m - 1)[i] as int]).quantity
                            == r0[o0.take(m - 1)[i] as int].quantity
                        &&& cur[o0.take(m - 1)[i] as int].price == r0[o0.take(m - 1)[i] as int].price
                        &&& cur[o0.take(m - 1)[i] as int].time == r0[o0.take(m - 1)[i] as int].time
                        &&& cur[o0.take(m - 1)[i] as int].order_id == r0[o0.take(
                            m - 1,
                        )[i] as int].order_id
                    } by {
                        assert(o0.take(m - 1)[i] == oc[i]);
                        assert(cur[oc[i] as int].quantity == r0[oc[i] as int].quantity);
                    }
                }
            }
            let rb = self.rec(b);
            if rb.price < incoming_price {
                proof {
                    lemma_quantity_sum_same(r0, cur, oc);
                }
                return Ok((incoming_quantity - remaining, remaining));
            }
            if rb.quantity <= remaining {
                proof {
                    if kb {
                        self.lemma_delete_succeeds(b);
                    }
                }
                match self.delete(b) {
                    Err(e) => {
                        return Err(e);
                    },
                    Ok(()) => {},
                }
                proof {
                    let new = self@;
                    let on = self.inorder();
                    assert(on =~= o0.take(m - 1));
                    lemma_tracked_trans(r0, cur, new);
                    assert(same_listed(r0, new, on)) by {
                        assert forall|i: int| 0 <= i < on.len() implies {
                            &&& (#[trigger] new[on[i] as int]).quantity == r0[on[i] as int].quantity
                            &&& new[on[i] as int].price == r0[on[i] as int].price
                            &&& new[on[i] as int].time == r0[on[i] as int].time
                            &&& new[on[i] as int].order_id == r0[on[i] as int].order_id
                        } by {
                            assert(on[i] == oc[i]);
                            assert(0 < s.order[i] < cur.len());
                            assert(s.pos[s.order[i] as int] == i);
                            assert(oc[i] != b);
                            assert(cur[oc[i] as int].quantity == r0[oc[i] as int].quantity);
                        }
                    }
                }
                remaining = remaining - rb.quantity;
                proof {
                    fuel = (fuel - 1) as nat;
                }
            } else {
                self.requantify(b, rb.quantity - remaining);
                proof {
                    let new = self@;
                    assert(tracked_from(cur, new));
                    lemma_tracked_trans(r0, cur, new);
                    assert(same_listed(r0, new, o0.take(m - 1))) by {
                        assert forall|i: int| 0 <= i < m - 1 implies {
                            &&& (#[trigger] new[o0.take(m - 1)[i] as int]).quantity
                                == r0[o0.take(m - 1)[i] as int].quantity
                            &&& new[o0.take(m - 1)[i] as int].price == r0[o0.take(
                                m - 1,
                            )[i] as int].price
                            &&& new[o0.take(m - 1)[i] as int].time == r0[o0.take(
                                m - 1,
                            )[i] as int].time
                            &&& new[o0.take(m - 1)[i] as int].order_id == r0[o0.take(
                                m - 1,
                            )[i] as int].order_id
                        } by {
                            assert(o0.take(m - 1)[i] == oc[i]);
                            assert(0 < s.order[i] < cur.len());
                            assert(s.pos[s.order[i] as int] == i);
                            assert(oc[i] != b);
                            assert(cur[oc[i] as int].quantity == r0[oc[i] as int].quantity);
                        }
                    }
                    lemma_quantity_sum_same(r0, new, o0.take(m - 1));
                    lemma_best_requantified(cur, b, (rb.quantity - remaining) as u64, cur[0].right, cur.len());
                    assert(best_of(new) == b);
                }
                return Ok((incoming_quantity, 0));
            }
        }
    }
}

} // verus!
