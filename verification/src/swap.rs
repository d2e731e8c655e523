//! Exchanging a record that has two children with its in-order successor.

use vstd::prelude::*;
use crate::book::{with_child, OrderBook};
use crate::record::{key_gt, Record};
use crate::remove::sorted_but;
use crate::shape::{
    anchored, colored, height_ok, linked, live, red_ok, same_orders, slot_ok, sorted,
    tracked_from, Shape,
};

verus! {

/// The store after the records at `a` and `b` exchanged their places in the
/// tree: each takes the other's links and colour and keeps its own order.
/// `b` stands next after `a` in the listing and has no left child.
pub open spec fn swapped(recs: Seq<Record>, a: usize, b: usize) -> Seq<Record> {
    let ra = recs[a as int];
    let rb = recs[b as int];
    let adj = rb.parent == a;
    let r1 = with_child(recs, ra.parent, a, b);
    let r2 = r1.update(ra.left as int, (Record { parent: b, dirty: true, ..r1[ra.left as int] }));
    let r3 = if adj {
        r2
    } else {
        let x = r2.update(
            ra.right as int,
            (Record { parent: b, dirty: true, ..r2[ra.right as int] }),
        );
        x.update(rb.parent as int, (Record { left: a, dirty: true, ..x[rb.parent as int] }))
    };
    let r4 = if rb.right != 0 {
        r3.update(rb.right as int, (Record { parent: a, dirty: true, ..r3[rb.right as int] }))
    } else {
        r3
    };
    let r5 = r4.update(
        b as int,
        (Record {
            color: ra.color,
            parent: ra.parent,
            left: ra.left,
            right: if adj {
                a
            } else {
                ra.right
            },
            dirty: true,
            ..rb
        }),
    );
    r5.update(
        a as int,
        (Record {
            color: rb.color,
            parent: if adj {
                b
            } else {
                rb.parent
            },
            left: 0,
            right: rb.right,
            dirty: true,
            ..ra
        }),
    )
}

/// The shape of the tree after `a` and `b` exchanged their places.
pub open spec fn shape_swapped(s: Shape, a: usize, b: usize) -> Shape {
    let i = s.pos[a as int];
    Shape {
        order: s.order.update(i, b).update(i + 1, a),
        pos: s.pos.update(a as int, i + 1).update(b as int, i),
        lo: s.lo.update(b as int, s.lo[a as int]).update(a as int, s.lo[b as int]),
        hi: s.hi.update(b as int, s.hi[a as int]).update(a as int, s.hi[b as int]),
    }
}

/// `a` has two children and `b` is its in-order successor: the leftmost
/// record of its right subtree.
pub open spec fn swap_ready(recs: Seq<Record>, s: Shape, a: usize, b: usize) -> bool {
    &&& live(s, a as int)
    &&& live(s, b as int)
    &&& recs[a as int].left != 0
    &&& recs[a as int].right != 0
    &&& recs[b as int].left == 0
    &&& s.pos[b as int] == s.pos[a as int] + 1
    &&& (recs[b as int].parent == a || recs[recs[b as int].parent as int].left == b)
}

/// What the exchange leaves at each address.
pub proof fn lemma_swapped_at(recs: Seq<Record>, s: Shape, a: usize, b: usize)
    requires
        linked(recs, s),
        swap_ready(recs, s, a, b),
    ensures
        ({
            let new = swapped(recs, a, b);
            let ra = recs[a as int];
            let rb = recs[b as int];
            let adj = rb.parent == a;
            let ap = ra.parent;
            let al = ra.left;
            let ar = ra.right;
            let bp = rb.parent;
            let br = rb.right;
            &&& new.len() == recs.len()
            &&& a != b && a != 0 && b != 0 && ap != a && ap != b && al != a && al != b && al != ap
            &&& ar != a && ar != ap && ar != al && bp != 0 && bp != b && bp != al && bp != ap
            &&& br != a && br != b && (br != 0 ==> br != al && br != ap && br != ar && br != bp)
            &&& live(s, al as int) && live(s, ar as int)
            &&& adj <==> ar == b
            &&& !adj ==> bp != a && live(s, bp as int) && recs[bp as int].left == b
            &&& new[b as int] == (Record {
                color: ra.color,
                parent: ap,
                left: al,
                right: if adj {
                    a
                } else {
                    ar
                },
                dirty: true,
                ..rb
            })
            &&& new[a as int] == (Record {
                color: rb.color,
                parent: if adj {
                    b
                } else {
                    bp
                },
                left: 0,
                right: br,
                dirty: true,
                ..ra
            })
            &&& new[al as int] == (Record { parent: b, dirty: true, ..recs[al as int] })
            &&& br != 0 ==> new[br as int] == (Record { parent: a, dirty: true, ..recs[br as int] })
            &&& ap != 0 && recs[ap as int].left == a ==> new[ap as int] == (Record {
                left: b,
                dirty: true,
                ..recs[ap as int]
            })
            &&& !(ap != 0 && recs[ap as int].left == a) ==> new[ap as int] == (Record {
                right: b,
                dirty: true,
                ..recs[ap as int]
            })
            &&& !adj && bp == ar ==> new[ar as int] == (Record {
                parent: b,
                left: a,
                dirty: true,
                ..recs[ar as int]
            })
            &&& !adj && bp != ar ==> new[ar as int] == (Record {
                parent: b,
                dirty: true,
                ..recs[ar as int]
            }) && new[bp as int] == (Record { left: a, dirty: true, ..recs[bp as int] })
            &&& forall|x: int|
                0 <= x < new.len() && x != a && x != b && x != ap && x != al && (adj || (x != ar
                    && x != bp)) && (br == 0 || x != br) ==> #[trigger] new[x] == recs[x]
        }),
{
    let ra = recs[a as int];
    let rb = recs[b as int];
    assert(slot_ok(recs, s, a as int));
    assert(slot_ok(recs, s, b as int));
    assert(slot_ok(recs, s, ra.left as int));
    assert(slot_ok(recs, s, ra.right as int));
    if ra.parent != 0 {
        assert(slot_ok(recs, s, ra.parent as int));
    }
    if rb.parent != 0 {
        assert(slot_ok(recs, s, rb.parent as int));
    }
    if rb.right != 0 {
        assert(slot_ok(recs, s, rb.right as int));
    }
}

/// The slots of the two records are in order after the exchange.
#[verifier::rlimit(80)]
proof fn lemma_swapped_slot_pair(recs: Seq<Record>, s: Shape, a: usize, b: usize, x: int)
    requires
        linked(recs, s),
        swap_ready(recs, s, a, b),
        0 < x < recs.len(),
        x == a || x == b,
    ensures
        slot_ok(swapped(recs, a, b), shape_swapped(s, a, b), x),
{
    lemma_swapped_at(recs, s, a, b);
    let ra = recs[a as int];
    let rb = recs[b as int];
    assert(slot_ok(recs, s, a as int));
    assert(slot_ok(recs, s, b as int));
    assert(slot_ok(recs, s, ra.left as int));
    assert(slot_ok(recs, s, ra.right as int));
    if ra.parent != 0 {
        assert(slot_ok(recs, s, ra.parent as int));
    }
    if rb.parent != 0 {
        assert(slot_ok(recs, s, rb.parent as int));
    }
    if rb.right != 0 {
        assert(slot_ok(recs, s, rb.right as int));
    }
    assert(slot_ok(recs, s, x));
    let rx = recs[x];
    if s.pos[x] >= 0 {
        if rx.left != 0 {
            assert(slot_ok(recs, s, rx.left as int));
        }
        if rx.right != 0 {
            assert(slot_ok(recs, s, rx.right as int));
        }
        if rx.parent != 0 {
            assert(slot_ok(recs, s, rx.parent as int));
        }
    }
}

/// The slots of the two parents are in order after the exchange.
#[verifier::rlimit(80)]
proof fn lemma_swapped_slot_above(recs: Seq<Record>, s: Shape, a: usize, b: usize, x: int)
    requires
        linked(recs, s),
        swap_ready(recs, s, a, b),
        0 < x < recs.len(),
        x != a && x != b && (x == recs[a as int].parent || x == recs[b as int].parent),
    ensures
        slot_ok(swapped(recs, a, b), shape_swapped(s, a, b), x),
{
    lemma_swapped_at(recs, s, a, b);
    let ra = recs[a as int];
    let rb = recs[b as int];
    assert(slot_ok(recs, s, a as int));
    assert(slot_ok(recs, s, b as int));
    assert(slot_ok(recs, s, ra.left as int));
    assert(slot_ok(recs, s, ra.right as int));
    if ra.parent != 0 {
        assert(slot_ok(recs, s, ra.parent as int));
    }
    if rb.parent != 0 {
        assert(slot_ok(recs, s, rb.parent as int));
    }
    if rb.right != 0 {
        assert(slot_ok(recs, s, rb.right as int));
    }
    assert(slot_ok(recs, s, x));
    let rx = recs[x];
    if s.pos[x] >= 0 {
        if rx.left != 0 {
            assert(slot_ok(recs, s, rx.left as int));
        }
        if rx.right != 0 {
            assert(slot_ok(recs, s, rx.right as int));
        }
        if rx.parent != 0 {
            assert(slot_ok(recs, s, rx.parent as int));
        }
    }
}

/// The slots of the children are in order after the exchange.
#[verifier::rlimit(80)]
proof fn lemma_swapped_slot_below(recs: Seq<Record>, s: Shape, a: usize, b: usize, x: int)
    requires
        linked(recs, s),
        swap_ready(recs, s, a, b),
        0 < x < recs.len(),
        x != a && x != b && x != recs[a as int].parent && x != recs[b as int].parent && (x
            == recs[a as int].left || x == recs[a as int].right || x == recs[b as int].right),
    ensures
        slot_ok(swapped(recs, a, b), shape_swapped(s, a, b), x),
{
    lemma_swapped_at(recs, s, a, b);
    let ra = recs[a as int];
    let rb = recs[b as int];
    assert(slot_ok(recs, s, a as int));
    assert(slot_ok(recs, s, b as int));
    assert(slot_ok(recs, s, ra.left as int));
    assert(slot_ok(recs, s, ra.right as int));
    if ra.parent != 0 {
        assert(slot_ok(recs, s, ra.parent as int));
    }
    if rb.parent != 0 {
        assert(slot_ok(recs, s, rb.parent as int));
    }
    if rb.right != 0 {
        assert(slot_ok(recs, s, rb.right as int));
    }
    assert(slot_ok(recs, s, x));
    let rx = recs[x];
    if s.pos[x] >= 0 {
        if rx.left != 0 {
            assert(slot_ok(recs, s, rx.left as int));
        }
        if rx.right != 0 {
            assert(slot_ok(recs, s, rx.right as int));
        }
        if rx.parent != 0 {
            assert(slot_ok(recs, s, rx.parent as int));
        }
    }
}

/// The slots of all other records are in order after the exchange.
#[verifier::rlimit(80)]
proof fn lemma_swapped_slot_apart(recs: Seq<Record>, s: Shape, a: usize, b: usize, x: int)
    requires
        linked(recs, s),
        swap_ready(recs, s, a, b),
        0 < x < recs.len(),
        x != a && x != b && x != recs[a as int].parent && x != recs[b as int].parent && x
            != recs[a as int].left && x != recs[a as int].right && x != recs[b as int].right,
    ensures
        slot_ok(swapped(recs, a, b), shape_swapped(s, a, b), x),
{
    lemma_swapped_at(recs, s, a, b);
    let ra = recs[a as int];
    let rb = recs[b as int];
    assert(slot_ok(recs, s, a as int));
    assert(slot_ok(recs, s, b as int));
    assert(slot_ok(recs, s, ra.left as int));
    assert(slot_ok(recs, s, ra.right as int));
    if ra.parent != 0 {
        assert(slot_ok(recs, s, ra.parent as int));
    }
    if rb.parent != 0 {
        assert(slot_ok(recs, s, rb.parent as int));
    }
    if rb.right != 0 {
        assert(slot_ok(recs, s, rb.right as int));
    }
    assert(slot_ok(recs, s, x));
    let rx = recs[x];
    if s.pos[x] >= 0 {
        if rx.left != 0 {
            assert(slot_ok(recs, s, rx.left as int));
        }
        if rx.right != 0 {
            assert(slot_ok(recs, s, rx.right as int));
        }
        if rx.parent != 0 {
            assert(slot_ok(recs, s, rx.parent as int));
        }
    }
}

/// Each slot is in order after the exchange.
proof fn lemma_swapped_slot(recs: Seq<Record>, s: Shape, a: usize, b: usize, x: int)
    requires
        linked(recs, s),
        swap_ready(recs, s, a, b),
        0 < x < recs.len(),
    ensures
        slot_ok(swapped(recs, a, b), shape_swapped(s, a, b), x),
{
    if x == a || x == b {
        lemma_swapped_slot_pair(recs, s, a, b, x);
    } else if x == recs[a as int].parent || x == recs[b as int].parent {
        lemma_swapped_slot_above(recs, s, a, b, x);
    } else if x == recs[a as int].left || x == recs[a as int].right || x == recs[b as int].right {
        lemma_swapped_slot_below(recs, s, a, b, x);
    } else {
        lemma_swapped_slot_apart(recs, s, a, b, x);
    }
}

/// The exchange keeps the links consistent.
pub proof fn lemma_swapped(recs: Seq<Record>, s: Shape, a: usize, b: usize)
    requires
        linked(recs, s),
        swap_ready(recs, s, a, b),
    ensures
        linked(swapped(recs, a, b), shape_swapped(s, a, b)),
{
    let new = swapped(recs, a, b);
    let s2 = shape_swapped(s, a, b);
    lemma_swapped_at(recs, s, a, b);
    assert(slot_ok(recs, s, a as int));
    assert(slot_ok(recs, s, b as int));
    if recs[0].right != 0 {
        assert(slot_ok(recs, s, recs[0].right as int));
    }
    assert(anchored(new, s2));
    assert forall|x: int| 0 < x < new.len() implies #[trigger] slot_ok(new, s2, x) by {
        lemma_swapped_slot(recs, s, a, b, x);
    }
    assert forall|j: int| 0 <= j < s2.order.len() implies 0 < (#[trigger] s2.order[j]) < new.len()
        && s2.pos[s2.order[j] as int] == j by {
        assert(0 < s.order[j] < recs.len());
        assert(s.pos[s.order[j] as int] == j);
    }
}

/// The exchange keeps every order at its address and flags what it writes;
/// the list still never descends among the records other than `a`.
pub proof fn lemma_swapped_keeps(recs: Seq<Record>, s: Shape, a: usize, b: usize)
    requires
        linked(recs, s),
        swap_ready(recs, s, a, b),
        sorted(recs, s.order),
    ensures
        same_orders(recs, swapped(recs, a, b)),
        tracked_from(recs, swapped(recs, a, b)),
        sorted_but(swapped(recs, a, b), shape_swapped(s, a, b).order, a),
{
    lemma_swapped_at(recs, s, a, b);
    let new = swapped(recs, a, b);
    let o2 = shape_swapped(s, a, b).order;
    let ra = recs[a as int];
    let rb = recs[b as int];
    let adj = rb.parent == a;
    assert forall|x: int| 0 <= x < new.len() implies (#[trigger] new[x]).quantity
        == recs[x].quantity && new[x].price == recs[x].price && new[x].time == recs[x].time
        && new[x].order_id == recs[x].order_id && (new[x].dirty || new[x] == recs[x]) by {
        if x != a && x != b && x != ra.parent && x != ra.left && (adj || (x != ra.right && x
            != rb.parent)) && (rb.right == 0 || x != rb.right) {
            assert(new[x] == recs[x]);
        }
    }
    let i = s.pos[a as int];
    assert(slot_ok(recs, s, a as int));
    assert(slot_ok(recs, s, b as int));
    assert forall|p: int, q: int|
        0 <= p < q < o2.len() && o2[p] != a && o2[q] != a implies !key_gt(
        #[trigger] new[o2[p] as int],
        #[trigger] new[o2[q] as int],
    ) by {
        let p0 = if p == i {
            i + 1
        } else {
            p
        };
        let q0 = if q == i {
            i + 1
        } else {
            q
        };
        assert(o2[p] == s.order[p0]);
        assert(o2[q] == s.order[q0]);
        assert(0 < s.order[p0] < recs.len());
        assert(0 < s.order[q0] < recs.len());
        assert(!key_gt(recs[s.order[p0] as int], recs[s.order[q0] as int]));
    }
}

/// Each black height is in order after the exchange.
#[verifier::rlimit(100)]
proof fn lemma_swapped_height(
    recs: Seq<Record>,
    s: Shape,
    a: usize,
    b: usize,
    bh: Seq<nat>,
    x: int,
)
    requires
        linked(recs, s),
        swap_ready(recs, s, a, b),
        colored(recs, bh),
        0 < x < recs.len(),
    ensures
        height_ok(
            swapped(recs, a, b),
            bh.update(b as int, bh[a as int]).update(a as int, bh[b as int]),
            x,
        ),
{
    lemma_swapped_at(recs, s, a, b);
    assert(slot_ok(recs, s, a as int));
    assert(slot_ok(recs, s, b as int));
    assert(height_ok(recs, bh, a as int));
    assert(height_ok(recs, bh, b as int));
    assert(slot_ok(recs, s, x));
    assert(height_ok(recs, bh, x));
}

/// No red record has a red child after the exchange.
#[verifier::rlimit(100)]
proof fn lemma_swapped_red(recs: Seq<Record>, s: Shape, a: usize, b: usize, bh: Seq<nat>, x: int)
    requires
        linked(recs, s),
        swap_ready(recs, s, a, b),
        colored(recs, bh),
        0 < x < recs.len(),
    ensures
        red_ok(swapped(recs, a, b), x),
{
    lemma_swapped_at(recs, s, a, b);
    let ra = recs[a as int];
    let rb = recs[b as int];
    assert(slot_ok(recs, s, a as int));
    assert(slot_ok(recs, s, b as int));
    assert(red_ok(recs, a as int));
    assert(red_ok(recs, b as int));
    assert(red_ok(recs, rb.parent as int));
    if ra.parent != 0 {
        assert(red_ok(recs, ra.parent as int));
    }
    assert(slot_ok(recs, s, x));
    assert(red_ok(recs, x));
}

/// The exchange keeps a red-black tree red-black: the two records take each
/// other's black height along with each other's colour.
pub proof fn lemma_swapped_colors(recs: Seq<Record>, s: Shape, a: usize, b: usize, bh: Seq<nat>)
    requires
        linked(recs, s),
        swap_ready(recs, s, a, b),
        colored(recs, bh),
    ensures
        colored(
            swapped(recs, a, b),
            bh.update(b as int, bh[a as int]).update(a as int, bh[b as int]),
        ),
{
    lemma_swapped_at(recs, s, a, b);
    let new = swapped(recs, a, b);
    let bh2 = bh.update(b as int, bh[a as int]).update(a as int, bh[b as int]);
    assert(slot_ok(recs, s, a as int));
    if recs[0].right != 0 {
        assert(slot_ok(recs, s, recs[0].right as int));
    }
    assert(!crate::shape::is_red(new, new[0].right));
    assert forall|x: int| 0 < x < new.len() implies #[trigger] height_ok(new, bh2, x) by {
        lemma_swapped_height(recs, s, a, b, bh, x);
    }
    assert forall|x: int| 0 < x < new.len() implies #[trigger] red_ok(new, x) by {
        lemma_swapped_red(recs, s, a, b, bh, x);
    }
}

impl OrderBook {
    /// Exchanges the places of `a` and its in-order successor `b` in the
    /// tree.
    pub(crate) fn swap_down(&mut self, a: usize, b: usize, Ghost(s): Ghost<Shape>)
        requires
            linked(old(self)@, s),
            swap_ready(old(self)@, s, a, b),
        ensures
            final(self)@ == swapped(old(self)@, a, b),
            linked(final(self)@, shape_swapped(s, a, b)),
    {
        proof {
            lemma_swapped_at(old(self)@, s, a, b);
            assert(slot_ok(self@, s, a as int));
            assert(slot_ok(self@, s, b as int));
        }
        let ra = self.rec(a);
        let rb = self.rec(b);
        let adj = rb.parent == a;
        self.set_child(ra.parent, a, b);
        self.set_parent(ra.left, b);
        if !adj {
            self.set_parent(ra.right, b);
            self.set_left(rb.parent, a);
        }
        if rb.right != 0 {
            self.set_parent(rb.right, a);
        }
        self.write(
            b,
            Record {
                color: ra.color,
                parent: ra.parent,
                left: ra.left,
                right: if adj {
                    a
                } else {
                    ra.right
                },
                dirty: true,
                ..rb
            },
        );
        self.write(
            a,
            Record {
                color: rb.color,
                parent: if adj {
                    b
                } else {
                    rb.parent
                },
                left: 0,
                right: rb.right,
                dirty: true,
                ..ra
            },
        );
        proof {
            assert(self@ =~= swapped(old(self)@, a, b));
            lemma_swapped(old(self)@, s, a, b);
        }
    }
}

} // verus!
