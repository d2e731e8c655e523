//! The mathematical model of a book: what it means for a record store to hold
//! a search tree, and for that tree to be red-black.
//!
//! The model is stated locally. A `Shape` lists the tree's addresses in order
//! and gives every record in the tree its index in that list and the range of
//! indices that its subtree spans. Each record then only has to agree with its
//! parent and its children; a rotation touches the ranges of two records and
//! leaves the list as it is.

use vstd::prelude::*;
use crate::record::{key_gt, vacant, Color, Record};

verus! {

/// A witness for the structure of a tree held in a record store.
pub ghost struct Shape {
    /// The addresses of the tree's records, smallest order first.
    pub order: Seq<usize>,
    /// For each address, its index in `order`, or a negative number where the
    /// address is not in the tree.
    pub pos: Seq<int>,
    /// For each address in the tree, the first index of its subtree.
    pub lo: Seq<int>,
    /// For each address in the tree, the index after the last of its subtree.
    pub hi: Seq<int>,
}

/// Address `a` is in the tree.
pub open spec fn live(s: Shape, a: int) -> bool {
    0 < a < s.pos.len() && s.pos[a] >= 0
}

/// The record at `a` agrees with its neighbours: its links stay inside the
/// store, its children point back at it and span the two halves of its range,
/// and its parent holds it as a child (the sentinel holds the root).
pub open spec fn node_ok(recs: Seq<Record>, s: Shape, a: int) -> bool {
    let r = recs[a];
    let p = s.pos[a];
    &&& 0 <= s.lo[a] <= p < s.hi[a] <= s.order.len()
    &&& s.order[p] == a
    &&& r.color != Color::RootSentinel
    &&& r.parent < recs.len()
    &&& r.left < recs.len()
    &&& r.right < recs.len()
    &&& (r.left == 0 <==> s.lo[a] == p)
    &&& (r.left != 0 ==> {
        &&& live(s, r.left as int)
        &&& recs[r.left as int].parent == a
        &&& s.lo[r.left as int] == s.lo[a]
        &&& s.hi[r.left as int] == p
    })
    &&& (r.right == 0 <==> s.hi[a] == p + 1)
    &&& (r.right != 0 ==> {
        &&& live(s, r.right as int)
        &&& recs[r.right as int].parent == a
        &&& s.lo[r.right as int] == p + 1
        &&& s.hi[r.right as int] == s.hi[a]
    })
    &&& (r.parent == 0 ==> recs[0].right == a)
    &&& (r.parent != 0 ==> {
        &&& live(s, r.parent as int)
        &&& (recs[r.parent as int].left == a || recs[r.parent as int].right == a)
    })
}

/// The slot at `a` is either a well-linked record of the tree or vacant.
pub open spec fn slot_ok(recs: Seq<Record>, s: Shape, a: int) -> bool {
    if s.pos[a] >= 0 {
        node_ok(recs, s, a)
    } else {
        vacant(recs[a])
    }
}

/// The sentinel anchors the root, and the root spans the whole list.
pub open spec fn anchored(recs: Seq<Record>, s: Shape) -> bool {
    let root = recs[0].right;
    &&& recs.len() >= 1
    &&& s.pos.len() == recs.len()
    &&& s.lo.len() == recs.len()
    &&& s.hi.len() == recs.len()
    &&& recs[0].color == Color::RootSentinel
    &&& recs[0].parent == 0
    &&& recs[0].left == 0
    &&& root < recs.len()
    &&& s.pos[0] < 0
    &&& s.order.len() < recs.len()
    &&& (root == 0 ==> s.order.len() == 0)
    &&& (root != 0 ==> {
        &&& live(s, root as int)
        &&& recs[root as int].parent == 0
        &&& s.lo[root as int] == 0
        &&& s.hi[root as int] == s.order.len()
    })
}

/// Every entry of the list is an address of the store that knows its index.
pub open spec fn indexed(recs: Seq<Record>, s: Shape) -> bool {
    forall|i: int|
        0 <= i < s.order.len() ==> 0 < (#[trigger] s.order[i]) < recs.len() && s.pos[s.order[i] as int]
            == i
}

/// The store holds a tree with the shape `s`: links are mutually consistent
/// and every slot outside the tree is vacant.
pub open spec fn linked(recs: Seq<Record>, s: Shape) -> bool {
    &&& anchored(recs, s)
    &&& indexed(recs, s)
    &&& forall|a: int| 0 < a < recs.len() ==> #[trigger] slot_ok(recs, s, a)
}

/// The list never descends: no record ranks above a later one.
pub open spec fn sorted(recs: Seq<Record>, order: Seq<usize>) -> bool {
    forall|i: int, j: int|
        0 <= i < j < order.len() ==> !key_gt(
            #[trigger] recs[order[i] as int],
            #[trigger] recs[order[j] as int],
        )
}

/// The store holds a search tree with the shape `s`.
pub open spec fn structured(recs: Seq<Record>, s: Shape) -> bool {
    linked(recs, s) && sorted(recs, s.order)
}

/// The in-order listing of the subtree under `a`, as the links give it,
/// down to depth `fuel`.
pub open spec fn subtree(recs: Seq<Record>, a: usize, fuel: nat) -> Seq<usize>
    decreases fuel,
{
    if fuel == 0 || a == 0 || a >= recs.len() {
        Seq::empty()
    } else {
        subtree(recs, recs[a as int].left, (fuel - 1) as nat).push(a) + subtree(
            recs,
            recs[a as int].right,
            (fuel - 1) as nat,
        )
    }
}

/// The in-order listing of the tree: the addresses met when walking from the
/// root, left subtree first, then the record, then the right subtree.
pub open spec fn inorder(recs: Seq<Record>) -> Seq<usize> {
    subtree(recs, recs[0].right, recs.len())
}

/// With fuel enough for its size, the listing of a subtree is the part of
/// the shape's list that the subtree spans.
pub proof fn lemma_subtree(recs: Seq<Record>, s: Shape, a: usize, fuel: nat)
    requires
        linked(recs, s),
        live(s, a as int),
        fuel >= s.hi[a as int] - s.lo[a as int],
    ensures
        subtree(recs, a, fuel) == s.order.subrange(s.lo[a as int], s.hi[a as int]),
    decreases fuel,
{
    assert(slot_ok(recs, s, a as int));
    let r = recs[a as int];
    let p = s.pos[a as int];
    let f = (fuel - 1) as nat;
    if r.left != 0 {
        assert(slot_ok(recs, s, r.left as int));
        lemma_subtree(recs, s, r.left, f);
    }
    if r.right != 0 {
        assert(slot_ok(recs, s, r.right as int));
        lemma_subtree(recs, s, r.right, f);
    }
    assert(subtree(recs, r.left, f) =~= s.order.subrange(s.lo[a as int], p));
    assert(subtree(recs, r.right, f) =~= s.order.subrange(p + 1, s.hi[a as int]));
    assert(subtree(recs, a, fuel) =~= s.order.subrange(s.lo[a as int], s.hi[a as int]));
}

/// The shape's list is the in-order listing of the tree.
pub proof fn lemma_inorder(recs: Seq<Record>, s: Shape)
    requires
        linked(recs, s),
    ensures
        inorder(recs) == s.order,
{
    let root = recs[0].right;
    if root != 0 {
        lemma_subtree(recs, s, root, recs.len());
        assert(s.order.subrange(0, s.order.len() as int) =~= s.order);
    } else {
        assert(s.order =~= Seq::empty());
    }
}

/// The black height that `bh` gives to the link `c`: 0 for an absent child.
pub open spec fn link_height(bh: Seq<nat>, c: usize) -> nat {
    if c == 0 {
        0
    } else {
        bh[c as int]
    }
}

/// Both subtrees of `a` have the same black height, and `a` has one more
/// than they have if it is black.
pub open spec fn height_ok(recs: Seq<Record>, bh: Seq<nat>, a: int) -> bool {
    let r = recs[a];
    &&& link_height(bh, r.left) == link_height(bh, r.right)
    &&& bh[a] == link_height(bh, r.left) + (if r.color == Color::Red { 0nat } else { 1nat })
}

/// The link `c` leads to a red record.
pub open spec fn is_red(recs: Seq<Record>, c: usize) -> bool {
    c != 0 && recs[c as int].color == Color::Red
}

/// If `a` is red, neither of its children is.
pub open spec fn red_ok(recs: Seq<Record>, a: int) -> bool {
    recs[a].color == Color::Red ==> !is_red(recs, recs[a].left) && !is_red(recs, recs[a].right)
}

/// Every record satisfies `height_ok` under `bh`.
pub open spec fn heights_ok(recs: Seq<Record>, bh: Seq<nat>) -> bool {
    &&& bh.len() == recs.len()
    &&& forall|a: int| 0 < a < recs.len() ==> #[trigger] height_ok(recs, bh, a)
}

/// No red record has a red child.
pub open spec fn reds_ok(recs: Seq<Record>) -> bool {
    forall|a: int| 0 < a < recs.len() ==> #[trigger] red_ok(recs, a)
}

/// No red record has a red child, and the root is not red.
pub open spec fn red_safe(recs: Seq<Record>) -> bool {
    reds_ok(recs) && !is_red(recs, recs[0].right)
}

/// The colours of the store are those of a red-black tree whose black
/// heights are `bh`: the root is black, no red record has a red child, and
/// all paths below a record pass the same number of black records.
pub open spec fn colored(recs: Seq<Record>, bh: Seq<nat>) -> bool {
    &&& !is_red(recs, recs[0].right)
    &&& heights_ok(recs, bh)
    &&& reds_ok(recs)
}

/// The two stores hold the same orders at the same addresses.
pub open spec fn same_orders(a: Seq<Record>, b: Seq<Record>) -> bool {
    &&& a.len() == b.len()
    &&& forall|i: int|
        0 <= i < a.len() ==> {
            &&& (#[trigger] b[i]).quantity == a[i].quantity
            &&& b[i].price == a[i].price
            &&& b[i].time == a[i].time
            &&& b[i].order_id == a[i].order_id
        }
}

/// The two stores give every address the same colour.
pub open spec fn same_colors(a: Seq<Record>, b: Seq<Record>) -> bool {
    &&& a.len() == b.len()
    &&& forall|i: int| 0 <= i < a.len() ==> (#[trigger] b[i]).color == a[i].color
}

/// A list that never descends in one store never descends in another that
/// holds the same orders.
pub proof fn lemma_sorted_same_orders(a: Seq<Record>, b: Seq<Record>, order: Seq<usize>)
    requires
        sorted(a, order),
        same_orders(a, b),
        forall|i: int| 0 <= i < order.len() ==> (#[trigger] order[i]) < a.len(),
    ensures
        sorted(b, order),
{
    assert forall|i: int, j: int| 0 <= i < j < order.len() implies !key_gt(
        #[trigger] b[order[i] as int],
        #[trigger] b[order[j] as int],
    ) by {
        assert(order[i] < a.len() && order[j] < a.len());
        assert(!key_gt(a[order[i] as int], a[order[j] as int]));
    }
}

/// Holding the same orders carries over from store to store.
pub proof fn lemma_same_orders_trans(a: Seq<Record>, b: Seq<Record>, c: Seq<Record>)
    requires
        same_orders(a, b),
        same_orders(b, c),
    ensures
        same_orders(a, c),
{
    assert forall|i: int| 0 <= i < a.len() implies {
        &&& (#[trigger] c[i]).quantity == a[i].quantity
        &&& c[i].price == a[i].price
        &&& c[i].time == a[i].time
        &&& c[i].order_id == a[i].order_id
    } by {
        assert(b[i].quantity == a[i].quantity);
    }
}

/// Every record that was dirty in `old` is dirty in `new`, every record
/// whose content differs is dirty, and so is every record added.
pub open spec fn tracked_from(old: Seq<Record>, new: Seq<Record>) -> bool {
    &&& old.len() <= new.len()
    &&& forall|a: int|
        0 <= a < new.len() ==> (#[trigger] new[a]).dirty || (a < old.len() && new[a] == old[a])
}

/// Tracking carries over from store to store.
pub proof fn lemma_tracked_trans(a: Seq<Record>, b: Seq<Record>, c: Seq<Record>)
    requires
        tracked_from(a, b),
        tracked_from(b, c),
    ensures
        tracked_from(a, c),
{
    assert forall|i: int| 0 <= i < c.len() implies (#[trigger] c[i]).dirty || (i < a.len() && c[i]
        == a[i]) by {
        if !c[i].dirty {
            assert(b[i] == c[i]);
        }
    }
}

/// A store grown by one vacant slot holds the same tree.
pub proof fn lemma_grow(old: Seq<Record>, new: Seq<Record>, s: Shape, s2: Shape)
    requires
        structured(old, s),
        new.len() == old.len() + 1,
        new =~= old.push(new[old.len() as int]),
        vacant(new[old.len() as int]),
        s2 == (Shape { pos: s.pos.push(-1), lo: s.lo.push(0), hi: s.hi.push(0), ..s }),
    ensures
        structured(new, s2),
{
    assert forall|a: int| 0 < a < new.len() implies #[trigger] slot_ok(new, s2, a) by {
        if a < old.len() {
            assert(slot_ok(old, s, a));
        }
    }
    assert forall|i: int, j: int| 0 <= i < j < s2.order.len() implies !key_gt(
        #[trigger] new[s2.order[i] as int],
        #[trigger] new[s2.order[j] as int],
    ) by {
        assert(new[s.order[i] as int] == old[s.order[i] as int]);
        assert(new[s.order[j] as int] == old[s.order[j] as int]);
    }
}

/// A vacant slot added to the store is a black leaf of height one.
pub proof fn lemma_grow_colored(
    old: Seq<Record>,
    new: Seq<Record>,
    s: Shape,
    bh: Seq<nat>,
    bh2: Seq<nat>,
)
    requires
        colored(old, bh),
        linked(old, s),
        new.len() == old.len() + 1,
        new =~= old.push(new[old.len() as int]),
        vacant(new[old.len() as int]),
        bh2 == bh.push(1),
    ensures
        colored(new, bh2),
{
    assert forall|a: int| 0 < a < new.len() implies #[trigger] height_ok(new, bh2, a) by {
        if a < old.len() {
            assert(slot_ok(old, s, a));
            assert(height_ok(old, bh, a));
        }
    }
    assert forall|a: int| 0 < a < new.len() implies #[trigger] red_ok(new, a) by {
        if a < old.len() {
            assert(slot_ok(old, s, a));
            assert(red_ok(old, a));
        }
    }
}

} // verus!
