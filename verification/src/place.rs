//! Finding the slot for a new order and linking a leaf into it.

use vstd::prelude::*;
use crate::book::OrderBook;
use crate::record::{Color, Record};
use crate::insert::{fix_inv, red_ok_but};
use crate::shape::{
    anchored, colored, height_ok, linked, live, red_ok, slot_ok, sorted, structured, Shape,
};

verus! {

/// The record ranks above the key `(price, time)`.
pub open spec fn key_above(r: Record, price: u64, time: u64) -> bool {
    r.price > price || (r.price == price && r.time > time)
}

/// Index `k` is where an order with the key `(price, time)` belongs in the
/// list: after every record that does not rank above it, before every
/// record that does.
pub open spec fn is_slot(recs: Seq<Record>, order: Seq<usize>, k: int, price: u64, time: u64) -> bool {
    &&& 0 <= k <= order.len()
    &&& forall|i: int| 0 <= i < k ==> !key_above(#[trigger] recs[order[i] as int], price, time)
    &&& forall|i: int|
        k <= i < order.len() ==> key_above(#[trigger] recs[order[i] as int], price, time)
}

/// Where the search for the key `(price, time)` ends when it starts at
/// `cur`: the record under which the new order is to hang, and whether on
/// the left. The search goes left of a record that ranks above the key,
/// else right, until the place it comes to is free. `fuel` bounds the
/// number of steps.
pub open spec fn slot_search(recs: Seq<Record>, cur: usize, price: u64, time: u64, fuel: nat) -> (
    usize,
    bool,
)
    decreases fuel,
{
    let r = recs[cur as int];
    if key_above(r, price, time) {
        if r.left == 0 || fuel == 0 {
            (cur, true)
        } else {
            slot_search(recs, r.left, price, time, (fuel - 1) as nat)
        }
    } else {
        if r.right == 0 || fuel == 0 {
            (cur, false)
        } else {
            slot_search(recs, r.right, price, time, (fuel - 1) as nat)
        }
    }
}

/// The index `x` after an element was inserted at `k`; an index equal to
/// `k` moves only if `at` is set.
pub open spec fn bump(x: int, k: int, at: bool) -> int {
    if x > k || (at && x == k) {
        x + 1
    } else {
        x
    }
}

/// The shape of the tree after the leaf `addr` took index `k`, as a left
/// child if `left` is set, else as a right child (or as the root).
pub open spec fn shape_with_leaf(s: Shape, addr: usize, k: int, left: bool) -> Shape {
    Shape {
        order: s.order.insert(k, addr),
        pos: Seq::new(
            s.pos.len(),
            |a: int|
                if a == addr {
                    k
                } else {
                    bump(s.pos[a], k, true)
                },
        ),
        lo: Seq::new(
            s.lo.len(),
            |a: int|
                if a == addr {
                    k
                } else {
                    bump(s.lo[a], k, !left)
                },
        ),
        hi: Seq::new(
            s.hi.len(),
            |a: int|
                if a == addr {
                    k + 1
                } else {
                    bump(s.hi[a], k, !left)
                },
        ),
    }
}

/// The store after `leaf` was written at `addr` and hung under `p` on the
/// given side. The sentinel takes the root on its right.
pub open spec fn with_leaf(recs: Seq<Record>, addr: usize, p: usize, left: bool, leaf: Record) -> Seq<
    Record,
> {
    let r1 = recs.update(addr as int, leaf);
    if left && p != 0 {
        r1.update(p as int, (Record { left: addr, dirty: true, ..r1[p as int] }))
    } else {
        r1.update(p as int, (Record { right: addr, dirty: true, ..r1[p as int] }))
    }
}

/// `addr` is a vacant slot, `p` has room on the given side, and `k` is the
/// index next to `p` on that side.
pub open spec fn leaf_fits(recs: Seq<Record>, s: Shape, addr: usize, p: usize, left: bool, k: int) -> bool {
    &&& 0 < addr < recs.len()
    &&& s.pos[addr as int] < 0
    &&& if p == 0 {
        recs[0].right == 0 && k == 0
    } else {
        &&& live(s, p as int)
        &&& if left {
            recs[p as int].left == 0 && k == s.pos[p as int]
        } else {
            recs[p as int].right == 0 && k == s.pos[p as int] + 1
        }
    }
}

/// The record is a fresh red leaf under `p`.
pub open spec fn is_leaf_of(leaf: Record, p: usize) -> bool {
    &&& leaf.color == Color::Red
    &&& leaf.parent == p
    &&& leaf.left == 0
    &&& leaf.right == 0
}

/// Each slot is in order after a fresh leaf was hung into the tree.
proof fn lemma_with_leaf_slot(
    recs: Seq<Record>,
    s: Shape,
    addr: usize,
    p: usize,
    left: bool,
    k: int,
    leaf: Record,
    a: int,
)
    requires
        linked(recs, s),
        leaf_fits(recs, s, addr, p, left, k),
        is_leaf_of(leaf, p),
        0 < a < recs.len(),
    ensures
        slot_ok(with_leaf(recs, addr, p, left, leaf), shape_with_leaf(s, addr, k, left), a),
{
    assert(slot_ok(recs, s, addr as int));
    if p != 0 {
        assert(slot_ok(recs, s, p as int));
    }
    assert(slot_ok(recs, s, a));
    let ra = recs[a];
    if s.pos[a] >= 0 {
        assert(s.order[s.pos[a]] == a);
        if ra.left != 0 {
            assert(slot_ok(recs, s, ra.left as int));
        }
        if ra.right != 0 {
            assert(slot_ok(recs, s, ra.right as int));
        }
        if ra.parent != 0 {
            assert(slot_ok(recs, s, ra.parent as int));
        }
    }
    if p != 0 {
        assert(s.order[s.pos[p as int]] == p);
    }
}

/// Hanging a fresh leaf into a free place of the tree keeps the links
/// consistent.
pub proof fn lemma_with_leaf(
    recs: Seq<Record>,
    s: Shape,
    addr: usize,
    p: usize,
    left: bool,
    k: int,
    leaf: Record,
)
    requires
        linked(recs, s),
        leaf_fits(recs, s, addr, p, left, k),
        is_leaf_of(leaf, p),
        s.order.len() + 1 < recs.len(),
    ensures
        linked(with_leaf(recs, addr, p, left, leaf), shape_with_leaf(s, addr, k, left)),
        0 <= k <= s.order.len(),
{
    let new = with_leaf(recs, addr, p, left, leaf);
    let s2 = shape_with_leaf(s, addr, k, left);
    assert(slot_ok(recs, s, addr as int));
    if p != 0 {
        assert(slot_ok(recs, s, p as int));
    }
    if recs[0].right != 0 {
        assert(slot_ok(recs, s, recs[0].right as int));
    }
    assert(anchored(new, s2));
    assert forall|a: int| 0 < a < new.len() implies #[trigger] slot_ok(new, s2, a) by {
        lemma_with_leaf_slot(recs, s, addr, p, left, k, leaf, a);
    }
    assert forall|i: int| 0 <= i < s2.order.len() implies 0 < (#[trigger] s2.order[i]) < new.len()
        && s2.pos[s2.order[i] as int] == i by {
        if i < k {
            assert(s2.order[i] == s.order[i]);
            assert(0 < s.order[i] < recs.len());
        } else if i > k {
            assert(s2.order[i] == s.order[i - 1]);
            assert(0 < s.order[i - 1] < recs.len());
        }
    }
}

/// A list that never descends stays so when a record is inserted at its
/// slot.
pub proof fn lemma_with_leaf_sorted(
    recs: Seq<Record>,
    s: Shape,
    addr: usize,
    p: usize,
    left: bool,
    k: int,
    leaf: Record,
)
    requires
        structured(recs, s),
        leaf_fits(recs, s, addr, p, left, k),
        is_slot(recs, s.order, k, leaf.price, leaf.time),
    ensures
        sorted(with_leaf(recs, addr, p, left, leaf), s.order.insert(k, addr)),
{
    let new = with_leaf(recs, addr, p, left, leaf);
    let o2 = s.order.insert(k, addr);
    assert(slot_ok(recs, s, addr as int));
    assert forall|i: int| 0 <= i < o2.len() && i != k implies {
        let j = if i < k {
            i
        } else {
            i - 1
        };
        &&& o2[i] == s.order[j]
        &&& o2[i] != addr
        &&& (#[trigger] new[o2[i] as int]).price == recs[s.order[j] as int].price
        &&& new[o2[i] as int].time == recs[s.order[j] as int].time
    } by {
        let j = if i < k {
            i
        } else {
            i - 1
        };
        assert(0 < s.order[j] < recs.len());
        assert(s.pos[s.order[j] as int] == j);
    }
    assert forall|i: int, j: int| 0 <= i < j < o2.len() implies !crate::record::key_gt(
        #[trigger] new[o2[i] as int],
        #[trigger] new[o2[j] as int],
    ) by {
        let i0 = if i < k {
            i
        } else {
            i - 1
        };
        let j0 = if j < k {
            j
        } else {
            j - 1
        };
        if i == k {
            assert(key_above(recs[s.order[j0] as int], leaf.price, leaf.time));
        } else if j == k {
            assert(!key_above(recs[s.order[i0] as int], leaf.price, leaf.time));
        } else {
            assert(!crate::record::key_gt(recs[s.order[i0] as int], recs[s.order[j0] as int]));
        }
    }
}

/// A fresh red leaf leaves the black heights as they were, and is the only
/// record that may now have a red parent.
pub proof fn lemma_with_leaf_colors(
    recs: Seq<Record>,
    s: Shape,
    addr: usize,
    p: usize,
    left: bool,
    k: int,
    leaf: Record,
    bh: Seq<nat>,
)
    requires
        linked(recs, s),
        leaf_fits(recs, s, addr, p, left, k),
        is_leaf_of(leaf, p),
        colored(recs, bh),
    ensures
        fix_inv(with_leaf(recs, addr, p, left, leaf), bh.update(addr as int, 0), addr),
{
    let new = with_leaf(recs, addr, p, left, leaf);
    let bh2 = bh.update(addr as int, 0);
    assert(slot_ok(recs, s, addr as int));
    if p != 0 {
        assert(slot_ok(recs, s, p as int));
        assert(height_ok(recs, bh, p as int));
    }
    if recs[0].right != 0 {
        assert(slot_ok(recs, s, recs[0].right as int));
    }
    assert forall|a: int| 0 < a < new.len() implies #[trigger] height_ok(new, bh2, a) by {
        assert(height_ok(recs, bh, a));
        assert(slot_ok(recs, s, a));
    }
    assert forall|a: int| 0 < a < new.len() implies #[trigger] red_ok_but(new, a, addr) by {
        assert(red_ok(recs, a));
        assert(slot_ok(recs, s, a));
    }
}

impl OrderBook {
    /// Descends from the root to the free place where an order with the key
    /// `(price, time)` belongs: left of every record that ranks above it,
    /// right of every other. Returns the parent and the side.
    pub(crate) fn find_slot(&self, price: u64, time: u64, Ghost(s): Ghost<Shape>) -> (out: (
        usize,
        bool,
    ))
        requires
            structured(self@, s),
            self@[0].right != 0,
        ensures
            out == slot_search(self@, self@[0].right, price, time, self@.len()),
            live(s, out.0 as int),
            out.1 ==> self@[out.0 as int].left == 0 && is_slot(
                self@,
                s.order,
                s.pos[out.0 as int],
                price,
                time,
            ),
            !out.1 ==> self@[out.0 as int].right == 0 && is_slot(
                self@,
                s.order,
                s.pos[out.0 as int] + 1,
                price,
                time,
            ),
    {
        let mut cur = self.rec(0).right;
        let ghost mut fuel: nat = self@.len();
        proof {
            assert(slot_ok(self@, s, cur as int));
        }
        loop
            invariant
                structured(self@, s),
                live(s, cur as int),
                fuel >= s.hi[cur as int] - s.lo[cur as int],
                slot_search(self@, self@[0].right, price, time, self@.len()) == slot_search(
                    self@,
                    cur,
                    price,
                    time,
                    fuel,
                ),
                forall|i: int|
                    0 <= i < s.lo[cur as int] ==> !key_above(
                        #[trigger] self@[s.order[i] as int],
                        price,
                        time,
                    ),
                forall|i: int|
                    s.hi[cur as int] <= i < s.order.len() ==> key_above(
                        #[trigger] self@[s.order[i] as int],
                        price,
                        time,
                    ),
            decreases s.hi[cur as int] - s.lo[cur as int],
        {
            proof {
                assert(slot_ok(self@, s, cur as int));
            }
            let r = self.rec(cur);
            let above = r.price > price || (r.price == price && r.time > time);
            let ghost c = s.pos[cur as int];
            if above {
                proof {
                    assert forall|i: int| c <= i < s.order.len() implies key_above(
                        #[trigger] self@[s.order[i] as int],
                        price,
                        time,
                    ) by {
                        if c < i < s.hi[cur as int] {
                            assert(!crate::record::key_gt(
                                self@[s.order[c] as int],
                                self@[s.order[i] as int],
                            ));
                        }
                    }
                }
                if r.left == 0 {
                    return (cur, true);
                }
                proof {
                    assert(slot_ok(self@, s, r.left as int));
                    fuel = (fuel - 1) as nat;
                }
                cur = r.left;
            } else {
                proof {
                    assert forall|i: int| 0 <= i < c + 1 implies !key_above(
                        #[trigger] self@[s.order[i] as int],
                        price,
                        time,
                    ) by {
                        if s.lo[cur as int] <= i < c {
                            assert(!crate::record::key_gt(
                                self@[s.order[i] as int],
                                self@[s.order[c] as int],
                            ));
                        }
                    }
                }
                if r.right == 0 {
                    return (cur, false);
                }
                proof {
                    assert(slot_ok(self@, s, r.right as int));
                    fuel = (fuel - 1) as nat;
                }
                cur = r.right;
            }
        }
    }
}

} // verus!
