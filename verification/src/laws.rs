//! What holds of every well-formed book, stated over the records
//! themselves.

use vstd::prelude::*;
use crate::book::OrderBook;
use crate::changes::{
    change_log, listing, loaded, log_upto, settled, settled_all, slot_of, slots_for,
};
use crate::delete::{deleted, leftmost, removal_site, sibling, sibling_missing_at};
use crate::insert::inserted;
use crate::matching::matched;
use crate::record::{key_gt, vacant, Color, Record};
use crate::shape::{
    colored, height_ok, lemma_inorder, live, red_ok, slot_ok, structured, tracked_from, Shape,
};

verus! {

/// `path` leads from a record of the store down to a record with an absent
/// child: each entry is a child of the one before it.
pub open spec fn is_descent(recs: Seq<Record>, path: Seq<usize>) -> bool {
    &&& path.len() >= 1
    &&& forall|i: int| 0 <= i < path.len() ==> 0 < (#[trigger] path[i]) < recs.len()
    &&& forall|i: int|
        0 <= i < path.len() - 1 ==> recs[(#[trigger] path[i]) as int].left == path[i + 1]
            || recs[path[i] as int].right == path[i + 1]
    &&& (recs[path.last() as int].left == 0 || recs[path.last() as int].right == 0)
}

/// The number of black records on `path`.
pub open spec fn blacks(recs: Seq<Record>, path: Seq<usize>) -> nat
    decreases path.len(),
{
    if path.len() == 0 {
        0
    } else {
        blacks(recs, path.drop_first()) + if recs[path[0] as int].color == Color::Black {
            1nat
        } else {
            0nat
        }
    }
}

/// A path down from a record of a red-black tree passes as many black
/// records as the black height of that record.
proof fn lemma_descent_height(recs: Seq<Record>, s: Shape, bh: Seq<nat>, path: Seq<usize>)
    requires
        structured(recs, s),
        colored(recs, bh),
        is_descent(recs, path),
        live(s, path[0] as int),
    ensures
        blacks(recs, path) == bh[path[0] as int],
    decreases path.len(),
{
    let a = path[0];
    assert(slot_ok(recs, s, a as int));
    assert(height_ok(recs, bh, a as int));
    let rest = path.drop_first();
    if path.len() == 1 {
        assert(path.last() == a);
        assert(blacks(recs, rest) == 0);
    } else {
        assert(rest[0] == path[1]);
        assert(recs[path[0] as int].left == path[1] || recs[path[0] as int].right == path[1]);
        assert(rest.last() == path.last());
        assert forall|i: int| 0 <= i < rest.len() implies 0 < (#[trigger] rest[i]) < recs.len() by {
            assert(rest[i] == path[i + 1]);
        }
        assert forall|i: int| 0 <= i < rest.len() - 1 implies recs[(#[trigger] rest[i]) as int].left
            == rest[i + 1] || recs[rest[i] as int].right == rest[i + 1] by {
            assert(rest[i] == path[i + 1]);
            assert(rest[i + 1] == path[i + 2]);
        }
        lemma_descent_height(recs, s, bh, rest);
    }
}

/// Following left links from a record of the tree stays in the tree.
proof fn lemma_leftmost_live(recs: Seq<Record>, s: Shape, a: usize, fuel: nat)
    requires
        structured(recs, s),
        live(s, a as int),
    ensures
        live(s, leftmost(recs, a, fuel) as int),
    decreases fuel,
{
    assert(slot_ok(recs, s, a as int));
    if fuel > 0 && recs[a as int].left != 0 {
        lemma_leftmost_live(recs, s, recs[a as int].left, (fuel - 1) as nat);
    }
}

impl OrderBook {
    /// In a well-formed book every record of the tree is red or black, its
    /// children name it as their parent, and its parent holds it as a
    /// child; the root's parent is the sentinel, which holds the root.
    pub proof fn lemma_links_consistent(&self, a: usize)
        requires
            self.wf(),
            self.contains(a),
        ensures
            0 < a < self@.len(),
            self@[a as int].color == Color::Red || self@[a as int].color == Color::Black,
            self@[a as int].left != 0 ==> self.contains(self@[a as int].left)
                && self@[self@[a as int].left as int].parent == a,
            self@[a as int].right != 0 ==> self.contains(self@[a as int].right)
                && self@[self@[a as int].right as int].parent == a,
            self@[a as int].parent == 0 ==> self.root() == a,
            self@[a as int].parent != 0 ==> self.contains(self@[a as int].parent) && (
            self@[self@[a as int].parent as int].left == a
                || self@[self@[a as int].parent as int].right == a),
            self@[a as int].left != self@[a as int].right || self@[a as int].left == 0,
    {
        let s = choose|s: Shape| structured(self@, s);
        lemma_inorder(self@, s);
        let r = self@[a as int];
        crate::delete::lemma_live_contains(self@, s, a);
        assert(slot_ok(self@, s, a as int));
        crate::delete::lemma_live_contains(self@, s, r.left);
        crate::delete::lemma_live_contains(self@, s, r.right);
        crate::delete::lemma_live_contains(self@, s, r.parent);
    }

    /// In a well-formed book the slots outside the tree hold nothing and
    /// refer to nothing; the sentinel alone carries its colour.
    pub proof fn lemma_no_dangling(&self, a: usize)
        requires
            self.wf(),
            0 < a < self@.len(),
            !self.contains(a),
        ensures
            vacant(self@[a as int]),
            self@[0].color == Color::RootSentinel,
            self@[0].right == 0 || self.contains(self@[0].right),
    {
        let s = choose|s: Shape| structured(self@, s);
        lemma_inorder(self@, s);
        crate::delete::lemma_live_contains(self@, s, a);
        crate::delete::lemma_live_contains(self@, s, self@[0].right);
        assert(slot_ok(self@, s, a as int));
    }

    /// In a well-formed book the in-order listing never descends: no
    /// resting order ranks above one listed after it. No address is listed
    /// twice.
    pub proof fn lemma_inorder_sorted(&self, i: int, j: int)
        requires
            self.wf(),
            0 <= i < j < self.inorder().len(),
        ensures
            !key_gt(self@[self.inorder()[i] as int], self@[self.inorder()[j] as int]),
            self.inorder()[i] != self.inorder()[j],
    {
        let s = choose|s: Shape| structured(self@, s);
        lemma_inorder(self@, s);
        assert(s.pos[s.order[i] as int] == i);
        assert(s.pos[s.order[j] as int] == j);
    }

    /// In a red-black book no red record has a red child, and the root is
    /// black.
    pub proof fn lemma_no_red_red(&self, a: usize)
        requires
            self.is_red_black(),
            self.contains(a),
            self@[a as int].color == Color::Red,
        ensures
            self@[a as int].left != 0 ==> self@[self@[a as int].left as int].color == Color::Black,
            self@[a as int].right != 0 ==> self@[self@[a as int].right as int].color
                == Color::Black,
            self.root() != a,
    {
        let s = choose|s: Shape| structured(self@, s);
        lemma_inorder(self@, s);
        crate::delete::lemma_live_contains(self@, s, a);
        assert(slot_ok(self@, s, a as int));
        assert(red_ok(self@, a as int));
        let r = self@[a as int];
        if r.left != 0 {
            assert(slot_ok(self@, s, r.left as int));
        }
        if r.right != 0 {
            assert(slot_ok(self@, s, r.right as int));
        }
    }

    /// In a red-black book any two paths from one record of the tree down
    /// to a record with an absent child pass the same number of black
    /// records.
    pub proof fn lemma_black_height(&self, p: Seq<usize>, q: Seq<usize>)
        requires
            self.is_red_black(),
            is_descent(self@, p),
            is_descent(self@, q),
            p[0] == q[0],
            self.contains(p[0]),
        ensures
            blacks(self@, p) == blacks(self@, q),
    {
        let s = choose|s: Shape| structured(self@, s);
        let bh = choose|bh: Seq<nat>| colored(self@, bh);
        lemma_inorder(self@, s);
        crate::delete::lemma_live_contains(self@, s, p[0]);
        lemma_descent_height(self@, s, bh, p);
        lemma_descent_height(self@, s, bh, q);
    }

    /// In a red-black book every record can be deleted: the sibling that
    /// the removal of a black leaf needs is there.
    pub proof fn lemma_delete_succeeds(&self, addr: usize)
        requires
            self.is_red_black(),
            self.contains(addr),
        ensures
            !sibling_missing_at(self@, removal_site(self@, addr)),
    {
        let s = choose|s: Shape| structured(self@, s);
        let bh = choose|bh: Seq<nat>| colored(self@, bh);
        lemma_inorder(self@, s);
        crate::delete::lemma_live_contains(self@, s, addr);
        assert(slot_ok(self@, s, addr as int));
        let v = removal_site(self@, addr);
        if v != addr {
            assert(slot_ok(self@, s, self@[addr as int].right as int));
            lemma_leftmost_live(self@, s, self@[addr as int].right, self@.len());
        }
        assert(slot_ok(self@, s, v as int));
        assert(height_ok(self@, bh, v as int));
        let p = self@[v as int].parent;
        if p != 0 {
            assert(slot_ok(self@, s, p as int));
            assert(height_ok(self@, bh, p as int));
            let sb = sibling(self@, v);
            if sb != 0 {
                assert(slot_ok(self@, s, sb as int));
                assert(height_ok(self@, bh, sb as int));
            }
        }
    }

    /// Price-time priority: when a matching pass keeps the first `m`
    /// records of the listing and consumes the others, no record kept ranks
    /// above a consumed one. The pass takes the highest price first and,
    /// among orders at one price, the later one first.
    pub proof fn lemma_consumed_outrank_kept(&self, m: int, kept: int, consumed: int)
        requires
            self.wf(),
            0 <= kept < m <= consumed < self.inorder().len(),
        ensures
            !key_gt(self@[self.inorder()[kept] as int], self@[self.inorder()[consumed] as int]),
            self@[self.inorder()[kept] as int].price <= self@[self.inorder()[consumed] as int].price,
    {
        self.lemma_inorder_sorted(kept, consumed);
    }
}

/// What the log of the first `n` slots holds.
proof fn lemma_log_upto(recs: Seq<Record>, n: nat)
    requires
        n <= recs.len() <= usize::MAX,
    ensures
        forall|i: int|
            0 <= i < log_upto(recs, n).len() ==> {
                let e = #[trigger] log_upto(recs, n)[i];
                e.0 < n && recs[e.0 as int].dirty && e.1 == settled(recs[e.0 as int])
            },
        forall|i: int, j: int|
            0 <= i < j < log_upto(recs, n).len() ==> (#[trigger] log_upto(recs, n)[i]).0 < (
            #[trigger] log_upto(recs, n)[j]).0,
        forall|a: int|
            0 <= a < n && recs[a].dirty ==> exists|i: int|
                0 <= i < log_upto(recs, n).len() && (#[trigger] log_upto(recs, n)[i]).0 == a,
    decreases n,
{
    if n > 0 {
        let d = log_upto(recs, (n - 1) as nat);
        let e = log_upto(recs, n);
        lemma_log_upto(recs, (n - 1) as nat);
        if recs[n - 1].dirty {
            assert(e == d.push(((n - 1) as usize, settled(recs[n - 1]))));
            assert forall|i: int| 0 <= i < e.len() implies {
                let x = #[trigger] e[i];
                x.0 < n && recs[x.0 as int].dirty && x.1 == settled(recs[x.0 as int])
            } by {
                if i < d.len() {
                    assert(e[i] == d[i]);
                }
            }
            assert forall|i: int, j: int| 0 <= i < j < e.len() implies (#[trigger] e[i]).0 < (
            #[trigger] e[j]).0 by {
                assert(e[i] == d[i]);
                if j < d.len() {
                    assert(e[j] == d[j]);
                }
            }
            assert forall|a: int| 0 <= a < n && recs[a].dirty implies exists|i: int|
                0 <= i < e.len() && (#[trigger] e[i]).0 == a by {
                if a == n - 1 {
                    assert(e[d.len() as int].0 == a);
                } else {
                    let i = choose|i: int| 0 <= i < d.len() && (#[trigger] d[i]).0 == a;
                    assert(e[i] == d[i]);
                }
            }
        } else {
            assert(e == d);
        }
    }
}

/// The change log lists every flagged record once, and no other, in
/// ascending order of address, each as it stands with its flag cleared.
pub proof fn lemma_change_log(recs: Seq<Record>)
    requires
        recs.len() <= usize::MAX,
    ensures
        forall|i: int|
            0 <= i < change_log(recs).len() ==> {
                let e = #[trigger] change_log(recs)[i];
                e.0 < recs.len() && recs[e.0 as int].dirty && e.1 == settled(recs[e.0 as int])
            },
        forall|i: int, j: int|
            0 <= i < j < change_log(recs).len() ==> (#[trigger] change_log(recs)[i]).0 < (
            #[trigger] change_log(recs)[j]).0,
        forall|a: int|
            0 <= a < recs.len() && recs[a].dirty ==> exists|i: int|
                0 <= i < change_log(recs).len() && (#[trigger] change_log(recs)[i]).0 == a,
{
    lemma_log_upto(recs, recs.len());
}

/// A store is rebuilt from its own listing.
pub proof fn lemma_load_listing(recs: Seq<Record>)
    requires
        1 <= recs.len() <= usize::MAX,
    ensures
        loaded(listing(recs)) == recs,
{
    lemma_listing_prefix(recs, recs.len());
    assert(listing(recs).take(recs.len() as int) =~= listing(recs));
    assert(loaded(listing(recs)) =~= recs);
}

/// The first `n` entries of a listing need `n` slots and give each of the
/// first `n` addresses its record.
proof fn lemma_listing_prefix(recs: Seq<Record>, n: nat)
    requires
        1 <= n <= recs.len() <= usize::MAX,
    ensures
        slots_for(listing(recs).take(n as int)) == n,
        forall|a: int| 0 <= a < n ==> slot_of(listing(recs).take(n as int), a) == recs[a],
    decreases n,
{
    let e = listing(recs).take(n as int);
    let d = listing(recs).take(n - 1);
    assert(e.last() == ((n - 1) as usize, recs[n - 1]));
    assert(e.drop_last() =~= d);
    assert(e.last().0 + 1 == n);
    if n > 1 {
        lemma_listing_prefix(recs, (n - 1) as nat);
        assert(slots_for(d) == n - 1);
    } else {
        assert(d.len() == 0);
        assert(slots_for(d) == 1);
    }
    assert(slots_for(e) == n);
    assert forall|a: int| 0 <= a < n implies slot_of(e, a) == recs[a] by {
        if a < n - 1 {
            assert(slot_of(d, a) == recs[a]);
        }
    }
}

/// What a listing followed by the log of the first `n` slots loads as.
proof fn lemma_log_prefix(old: Seq<Record>, new: Seq<Record>, n: nat)
    requires
        1 <= old.len() <= new.len() <= usize::MAX,
        n <= new.len(),
    ensures
        ({
            let e = listing(old) + log_upto(new, n);
            &&& old.len() <= slots_for(e)
            &&& slots_for(e) <= old.len() || slots_for(e) <= n
            &&& n > 0 && new[n - 1].dirty ==> slots_for(e) >= n
            &&& forall|a: int|
                0 <= a < new.len() ==> slot_of(e, a) == if a < n && new[a].dirty {
                    settled(new[a])
                } else if a < old.len() {
                    old[a]
                } else {
                    crate::record::blank(a)
                }
        }),
    decreases n,
{
    let e = listing(old) + log_upto(new, n);
    if n == 0 {
        assert(e =~= listing(old));
        assert(listing(old).take(old.len() as int) =~= listing(old));
        lemma_listing_prefix(old, old.len());
        assert forall|a: int| old.len() <= a < new.len() implies slot_of(e, a)
            == crate::record::blank(a) by {
            lemma_slot_unlisted(old, old.len(), a);
        }
    } else {
        let d = listing(old) + log_upto(new, (n - 1) as nat);
        lemma_log_prefix(old, new, (n - 1) as nat);
        if new[n - 1].dirty {
            let x = ((n - 1) as usize, settled(new[n - 1]));
            assert(e =~= d.push(x));
            assert(e.drop_last() =~= d);
            assert(e.last() == x);
            assert(slots_for(e) == if x.0 + 1 > slots_for(d) {
                x.0 + 1
            } else {
                slots_for(d)
            });
            assert forall|a: int| 0 <= a < new.len() implies slot_of(e, a) == if a < n
                && new[a].dirty {
                settled(new[a])
            } else if a < old.len() {
                old[a]
            } else {
                crate::record::blank(a)
            } by {
                if a != n - 1 {
                    assert(slot_of(e, a) == slot_of(d, a));
                }
            }
        } else {
            assert(e == d);
        }
    }
}

/// An address that a listing does not reach holds the blank record.
proof fn lemma_slot_unlisted(recs: Seq<Record>, n: nat, a: int)
    requires
        n <= recs.len() <= usize::MAX,
        a >= n,
    ensures
        slot_of(listing(recs).take(n as int), a) == crate::record::blank(a),
    decreases n,
{
    let e = listing(recs).take(n as int);
    if n > 0 {
        assert(e.last() == ((n - 1) as usize, recs[n - 1]));
        assert(e.drop_last() =~= listing(recs).take(n - 1));
        lemma_slot_unlisted(recs, (n - 1) as nat, a);
    }
}

/// The change log rebuilds the book: the listing of a store without flags,
/// followed by the log of a store that was tracked from it, loads as that
/// store with its flags cleared.
pub proof fn lemma_log_rebuilds(old: Seq<Record>, new: Seq<Record>)
    requires
        1 <= old.len(),
        new.len() <= usize::MAX,
        tracked_from(old, new),
        forall|a: int| 0 <= a < old.len() ==> !(#[trigger] old[a]).dirty,
    ensures
        loaded(listing(old) + change_log(new)) == settled_all(new),
{
    lemma_log_prefix(old, new, new.len());
    let e = listing(old) + change_log(new);
    if new.len() > old.len() {
        assert(new[new.len() - 1].dirty);
    }
    assert(slots_for(e) == new.len());
    assert forall|a: int| 0 <= a < new.len() implies slot_of(e, a) == settled(new[a]) by {
        if !new[a].dirty {
            assert(new[a] == old[a]);
        }
    }
    assert(loaded(e) =~= settled_all(new));
}

/// Replaying on a rebuilt book gives what the book itself gives: a store
/// loaded from an earlier listing and the change log since then is the
/// drained store, so resting an order, deleting a record or a matching pass
/// leave the same store on both, and the same change log.
pub proof fn lemma_replay(
    old: Seq<Record>,
    new: Seq<Record>,
    quantity: u64,
    price: u64,
    time: u64,
    order_id: u64,
    addr: usize,
)
    requires
        1 <= old.len(),
        new.len() <= usize::MAX,
        tracked_from(old, new),
        forall|a: int| 0 <= a < old.len() ==> !(#[trigger] old[a]).dirty,
    ensures
        ({
            let rebuilt = loaded(listing(old) + change_log(new));
            let drained = settled_all(new);
            &&& rebuilt == drained
            &&& inserted(rebuilt, quantity, price, time, order_id) == inserted(
                drained,
                quantity,
                price,
                time,
                order_id,
            )
            &&& deleted(rebuilt, addr) == deleted(drained, addr)
            &&& matched(rebuilt, quantity, price, rebuilt.len()) == matched(
                drained,
                quantity,
                price,
                drained.len(),
            )
            &&& change_log(inserted(rebuilt, quantity, price, time, order_id)) == change_log(
                inserted(drained, quantity, price, time, order_id),
            )
            &&& change_log(deleted(rebuilt, addr)) == change_log(deleted(drained, addr))
            &&& change_log(matched(rebuilt, quantity, price, rebuilt.len()).0) == change_log(
                matched(drained, quantity, price, drained.len()).0,
            )
        }),
{
    lemma_log_rebuilds(old, new);
}

} // verus!
