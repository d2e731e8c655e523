//! Validating a store: deciding whether it holds a search tree.

use vstd::prelude::*;
use crate::book::OrderBook;
use crate::record::{key_gt, Color, Record};
use crate::shape::{
    anchored, colored, height_ok, indexed, is_red, live, red_ok, slot_ok, sorted, structured,
    Shape,
};

verus! {

/// A shape as the validator computes it: the listing, and for each address
/// its index and the range of its subtree. An address that was not reached
/// has `usize::MAX` for its index.
pub struct Survey {
    pub order: Vec<usize>,
    pub pos: Vec<usize>,
    pub lo: Vec<usize>,
    pub hi: Vec<usize>,
}

impl Survey {
    /// The shape that the survey stands for.
    pub open spec fn shape(&self) -> Shape {
        Shape {
            order: self.order@,
            pos: Seq::new(
                self.pos@.len(),
                |a: int|
                    if self.pos@[a] == usize::MAX {
                        -1
                    } else {
                        self.pos@[a] as int
                    },
            ),
            lo: Seq::new(self.lo@.len(), |a: int| self.lo@[a] as int),
            hi: Seq::new(self.hi@.len(), |a: int| self.hi@[a] as int),
        }
    }

    /// The survey has an entry for each of `n` slots.
    pub open spec fn fits(&self, n: nat) -> bool {
        &&& self.pos@.len() == n
        &&& self.lo@.len() == n
        &&& self.hi@.len() == n
    }
}

/// No record of the list ranks above the next one.
pub open spec fn ascending(recs: Seq<Record>, order: Seq<usize>) -> bool {
    forall|i: int|
        0 <= i < order.len() - 1 ==> !key_gt(
            #[trigger] recs[order[i] as int],
            recs[order[i + 1] as int],
        )
}

/// A list in which no record ranks above the next one never descends.
pub proof fn lemma_ascending_sorted(recs: Seq<Record>, order: Seq<usize>, i: int, j: int)
    requires
        ascending(recs, order),
        0 <= i < j < order.len(),
    ensures
        !key_gt(recs[order[i] as int], recs[order[j] as int]),
    decreases j - i,
{
    if j > i + 1 {
        lemma_ascending_sorted(recs, order, i, j - 1);
        assert(!key_gt(recs[order[j - 1] as int], recs[order[j - 1 + 1] as int]));
    } else {
        assert(!key_gt(recs[order[i] as int], recs[order[i + 1] as int]));
    }
}

impl OrderBook {
    /// Whether the sentinel anchors the tree that the survey describes.
    fn anchored_in(&self, v: &Survey) -> (ok: bool)
        requires
            self@.len() >= 1,
            v.fits(self@.len()),
        ensures
            ok == anchored(self@, v.shape()),
    {
        let n = self.len();
        let s = self.rec(0);
        let root = s.right;
        if s.color != Color::RootSentinel || s.parent != 0 || s.left != 0 || root >= n {
            return false;
        }
        if v.pos[0] != usize::MAX || v.order.len() >= n {
            return false;
        }
        if root == 0 {
            v.order.len() == 0
        } else {
            v.pos[root] != usize::MAX && self.rec(root).parent == 0 && v.lo[root] == 0
                && v.hi[root] == v.order.len()
        }
    }

    /// Whether every entry of the surveyed listing knows its index.
    fn indexed_in(&self, v: &Survey) -> (ok: bool)
        requires
            v.fits(self@.len()),
        ensures
            ok == indexed(self@, v.shape()),
    {
        let n = self.len();
        let mut i: usize = 0;
        while i < v.order.len()
            invariant
                n == self@.len(),
                v.fits(self@.len()),
                i <= v.order@.len(),
                forall|j: int|
                    0 <= j < i ==> 0 < (#[trigger] v.shape().order[j]) < n
                        && v.shape().pos[v.shape().order[j] as int] == j,
            decreases v.order@.len() - i,
        {
            let a = v.order[i];
            if a == 0 || a >= n || v.pos[a] != i {
                proof {
                    assert(v.shape().order[i as int] == a);
                }
                return false;
            }
            i = i + 1;
        }
        true
    }

    /// Whether the slot at `a` is in order under the survey.
    fn slot_in(&self, v: &Survey, a: usize) -> (ok: bool)
        requires
            v.fits(self@.len()),
            0 < a < self@.len(),
        ensures
            ok == slot_ok(self@, v.shape(), a as int),
    {
        let n = self.len();
        let r = self.rec(a);
        let p = v.pos[a];
        if p == usize::MAX {
            return r.color == Color::Black && r.parent == 0 && r.left == 0 && r.right == 0
                && r.quantity == 0 && r.price == 0 && r.time == 0 && r.order_id == 0;
        }
        let lo = v.lo[a];
        let hi = v.hi[a];
        if !(lo <= p && p < hi && hi <= v.order.len()) {
            return false;
        }
        if v.order[p] != a || r.color == Color::RootSentinel || r.parent >= n || r.left >= n
            || r.right >= n {
            return false;
        }
        if (r.left == 0) != (lo == p) {
            return false;
        }
        if r.left != 0 {
            let l = r.left;
            if v.pos[l] == usize::MAX || self.rec(l).parent != a || v.lo[l] != lo || v.hi[l] != p {
                return false;
            }
        }
        if (r.right == 0) != (hi == p + 1) {
            return false;
        }
        if r.right != 0 {
            let c = r.right;
            if v.pos[c] == usize::MAX || self.rec(c).parent != a || v.lo[c] != p + 1 || v.hi[c]
                != hi {
                return false;
            }
        }
        if r.parent == 0 {
            self.rec(0).right == a
        } else {
            let q = r.parent;
            v.pos[q] != usize::MAX && (self.rec(q).left == a || self.rec(q).right == a)
        }
    }

    /// Whether every slot is in order under the survey.
    fn slots_in(&self, v: &Survey) -> (ok: bool)
        requires
            v.fits(self@.len()),
            self@.len() >= 1,
        ensures
            ok == (forall|a: int| 0 < a < self@.len() ==> #[trigger] slot_ok(self@, v.shape(), a)),
    {
        let n = self.len();
        let mut a: usize = 1;
        while a < n
            invariant
                n == self@.len(),
                v.fits(self@.len()),
                1 <= a <= n,
                forall|x: int| 0 < x < a ==> #[trigger] slot_ok(self@, v.shape(), x),
            decreases n - a,
        {
            if !self.slot_in(v, a) {
                return false;
            }
            a = a + 1;
        }
        true
    }

    /// Whether the surveyed listing never descends.
    fn sorted_in(&self, v: &Survey) -> (ok: bool)
        requires
            v.fits(self@.len()),
            indexed(self@, v.shape()),
        ensures
            ok == sorted(self@, v.shape().order),
    {
        let m = v.order.len();
        let mut i: usize = 0;
        if m >= 2 {
            while i < m - 1
                invariant
                    m == v.order@.len(),
                    m >= 2,
                    i <= m - 1,
                    v.fits(self@.len()),
                    indexed(self@, v.shape()),
                    forall|j: int|
                        0 <= j < i ==> !key_gt(
                            #[trigger] self@[v.order@[j] as int],
                            self@[v.order@[j + 1] as int],
                        ),
                decreases m - i,
            {
                proof {
                    assert(0 < v.shape().order[i as int] < self@.len());
                    assert(0 < v.shape().order[i + 1] < self@.len());
                }
                let x = self.rec(v.order[i]);
                let y = self.rec(v.order[i + 1]);
                if x.price > y.price || (x.price == y.price && x.time > y.time) {
                    return false;
                }
                i = i + 1;
            }
        }
        proof {
            assert(ascending(self@, v.order@));
            assert forall|i: int, j: int| 0 <= i < j < v.order@.len() implies !key_gt(
                #[trigger] self@[v.order@[i] as int],
                #[trigger] self@[v.order@[j] as int],
            ) by {
                lemma_ascending_sorted(self@, v.order@, i, j);
            }
        }
        true
    }

    /// Whether the store holds a search tree with the surveyed shape.
    fn structured_in(&self, v: &Survey) -> (ok: bool)
        requires
            v.fits(self@.len()),
            self@.len() >= 1,
        ensures
            ok == structured(self@, v.shape()),
    {
        self.anchored_in(v) && self.indexed_in(v) && self.slots_in(v) && self.sorted_in(v)
    }

    /// Lists the subtree under `a` in order behind what `order` holds,
    /// entering at most `fuel` records. Returns the fuel left, or nothing
    /// where the fuel ran out or a link led outside the store.
    fn survey_subtree(
        &self,
        a: usize,
        order: &mut Vec<usize>,
        fuel: usize,
        Ghost(w): Ghost<Shape>,
        Ghost(valid): Ghost<bool>,
    ) -> (rest: Option<usize>)
        requires
            valid ==> {
                &&& structured(self@, w)
                &&& live(w, a as int)
                &&& old(order)@ == w.order.take(w.lo[a as int])
                &&& fuel >= w.hi[a as int] - w.lo[a as int]
            },
        ensures
            rest matches Some(x) ==> x < fuel,
            valid ==> {
                &&& rest matches Some(x) && x == fuel - (w.hi[a as int] - w.lo[a as int])
                &&& final(order)@ == w.order.take(w.hi[a as int])
            },
        decreases fuel,
    {
        proof {
            if valid {
                assert(slot_ok(self@, w, a as int));
            }
        }
        if fuel == 0 || a == 0 || a >= self.len() {
            return None;
        }
        let r = self.rec(a);
        let mut f = fuel - 1;
        if r.left != 0 {
            proof {
                if valid {
                    assert(slot_ok(self@, w, r.left as int));
                }
            }
            match self.survey_subtree(r.left, order, f, Ghost(w), Ghost(valid)) {
                None => {
                    return None;
                },
                Some(x) => {
                    f = x;
                },
            }
        }
        order.push(a);
        proof {
            if valid {
                let p = w.pos[a as int];
                assert(w.order.take(p).push(a) =~= w.order.take(p + 1));
            }
        }
        if r.right != 0 {
            proof {
                if valid {
                    assert(slot_ok(self@, w, r.right as int));
                }
            }
            match self.survey_subtree(r.right, order, f, Ghost(w), Ghost(valid)) {
                None => {
                    return None;
                },
                Some(x) => {
                    f = x;
                },
            }
        }
        Some(f)
    }

    /// Surveys the store: lists the tree in order as far as the links lead,
    /// and works out each record's index and the range of its subtree.
    fn survey(&self, Ghost(w): Ghost<Shape>, Ghost(valid): Ghost<bool>) -> (v: Survey)
        requires
            self@.len() >= 1,
            valid ==> structured(self@, w),
        ensures
            v.fits(self@.len()),
            valid ==> structured(self@, v.shape()),
    {
        let n = self.len();
        let root = self.rec(0).right;
        let mut order: Vec<usize> = Vec::new();
        if root != 0 {
            proof {
                if valid {
                    assert(w.order.take(0) =~= Seq::<usize>::empty());
                }
            }
            let _ = self.survey_subtree(root, &mut order, n - 1, Ghost(w), Ghost(valid));
        }
        proof {
            if valid {
                assert(w.order.take(w.order.len() as int) =~= w.order);
                assert(order@ == w.order);
            }
        }
        let mut pos: Vec<usize> = Vec::new();
        let mut lo: Vec<usize> = Vec::new();
        let mut hi: Vec<usize> = Vec::new();
        let mut k: usize = 0;
        while k < n
            invariant
                k <= n,
                pos@.len() == k,
                lo@.len() == k,
                hi@.len() == k,
                forall|x: int| 0 <= x < k ==> #[trigger] pos@[x] == usize::MAX,
            decreases n - k,
        {
            pos.push(usize::MAX);
            lo.push(0);
            hi.push(0);
            k = k + 1;
        }
        let m = order.len();
        let mut i: usize = 0;
        while i < m
            invariant
                n == self@.len(),
                m == order@.len(),
                i <= m,
                pos@.len() == n,
                lo@.len() == n,
                hi@.len() == n,
                valid ==> structured(self@, w) && order@ == w.order,
                valid ==> forall|x: int|
                    0 <= x < n && 0 <= w.pos[x] < i ==> #[trigger] pos@[x] == w.pos[x],
                valid ==> forall|x: int|
                    0 <= x < n && !(0 <= w.pos[x] < i) ==> #[trigger] pos@[x] == usize::MAX,
                valid ==> forall|x: int| 0 <= x < n && 0 <= w.pos[x] < i ==> #[trigger] lo@[x] == w.lo[x],
            decreases m - i,
        {
            let a = order[i];
            if a < n {
                proof {
                    if valid {
                        assert(0 < w.order[i as int] < n);
                        assert(w.pos[w.order[i as int] as int] == i);
                        assert(slot_ok(self@, w, a as int));
                        assert forall|x: int| 0 <= x < n && w.pos[x] == i implies x == a by {
                            assert(slot_ok(self@, w, x));
                        }
                        if self@[a as int].left != 0 {
                            assert(slot_ok(self@, w, self@[a as int].left as int));
                        }
                    }
                }
                pos.set(a, i);
                let l = self.rec(a).left;
                let start = if l != 0 && l < n {
                    lo[l]
                } else {
                    i
                };
                lo.set(a, start);
            }
            i = i + 1;
        }
        let mut j: usize = m;
        proof {
            if valid {
                assert forall|x: int| 0 <= x < n && m <= w.pos[x] implies #[trigger] hi@[x]
                    == w.hi[x] by {
                    if x > 0 {
                        assert(slot_ok(self@, w, x));
                    }
                }
            }
        }
        while j > 0
            invariant
                n == self@.len(),
                m == order@.len(),
                j <= m,
                pos@.len() == n,
                lo@.len() == n,
                hi@.len() == n,
                valid ==> structured(self@, w) && order@ == w.order,
                valid ==> forall|x: int|
                    0 <= x < n && 0 <= w.pos[x] < m ==> #[trigger] pos@[x] == w.pos[x],
                valid ==> forall|x: int|
                    0 <= x < n && !(0 <= w.pos[x] < m) ==> #[trigger] pos@[x] == usize::MAX,
                valid ==> forall|x: int| 0 <= x < n && 0 <= w.pos[x] < m ==> #[trigger] lo@[x] == w.lo[x],
                valid ==> forall|x: int| 0 <= x < n && j <= w.pos[x] ==> #[trigger] hi@[x] == w.hi[x],
            decreases j,
        {
            let a = order[j - 1];
            if a < n {
                proof {
                    if valid {
                        assert(0 < w.order[j - 1] < n);
                        assert(w.pos[w.order[j - 1] as int] == j - 1);
                        assert(slot_ok(self@, w, a as int));
                        assert forall|x: int| 0 <= x < n && w.pos[x] == j - 1 implies x == a by {
                            assert(slot_ok(self@, w, x));
                        }
                        if self@[a as int].right != 0 {
                            assert(slot_ok(self@, w, self@[a as int].right as int));
                        }
                    }
                }
                let c = self.rec(a).right;
                let end = if c != 0 && c < n {
                    hi[c]
                } else {
                    j
                };
                hi.set(a, end);
            }
            j = j - 1;
        }
        let v = Survey { order, pos, lo, hi };
        proof {
            if valid {
                lemma_survey_agrees(self@, w, v);
            }
        }
        v
    }

    /// Whether the store holds a search tree: whether its links are
    /// mutually consistent, its slots outside the tree vacant, and its
    /// in-order listing never descends. A book for which this holds can be
    /// handed to every operation.
    pub fn validate(&self) -> (ok: bool)
        ensures
            ok == self.wf(),
    {
        if self.len() == 0 {
            proof {
                assert forall|s: Shape| !structured(self@, s) by {}
            }
            return false;
        }
        let ghost valid = self.wf();
        let ghost w = choose|s: Shape| structured(self@, s);
        let v = self.survey(Ghost(w), Ghost(valid));
        self.structured_in(&v)
    }
}

/// The black heights that the validator worked out, as the model counts
/// them.
pub open spec fn heights_of(bh: Seq<usize>) -> Seq<nat> {
    Seq::new(bh.len(), |a: int| bh[a] as nat)
}

/// `x` is a record of the subtree under `a`.
pub open spec fn in_subtree(w: Shape, a: usize, x: int) -> bool {
    live(w, x) && w.lo[a as int] <= w.pos[x] < w.hi[a as int]
}

impl OrderBook {
    /// Works out the black height of every record of the subtree under `a`
    /// from the heights of its left descendants, and returns that of `a`.
    fn fill_heights(
        &self,
        a: usize,
        bh: &mut Vec<usize>,
        Ghost(w): Ghost<Shape>,
        Ghost(hw): Ghost<Seq<nat>>,
        Ghost(valid): Ghost<bool>,
    ) -> (h: usize)
        requires
            structured(self@, w),
            live(w, a as int),
            old(bh)@.len() == self@.len(),
            valid ==> colored(self@, hw),
        ensures
            final(bh)@.len() == self@.len(),
            h <= w.hi[a as int] - w.lo[a as int],
            h == final(bh)@[a as int],
            forall|x: int|
                0 <= x < self@.len() && !in_subtree(w, a, x) ==> #[trigger] final(bh)@[x] == old(
                    bh,
                )@[x],
            valid ==> forall|x: int|
                0 <= x < self@.len() && in_subtree(w, a, x) ==> #[trigger] final(bh)@[x] == hw[x],
        decreases w.hi[a as int] - w.lo[a as int],
    {
        proof {
            assert(slot_ok(self@, w, a as int));
        }
        let r = self.rec(a);
        let ghost b0 = bh@;
        let mut below: usize = 0;
        if r.left != 0 {
            proof {
                assert(slot_ok(self@, w, r.left as int));
            }
            below = self.fill_heights(r.left, bh, Ghost(w), Ghost(hw), Ghost(valid));
        }
        let ghost b1 = bh@;
        if r.right != 0 {
            proof {
                assert(slot_ok(self@, w, r.right as int));
            }
            let _ = self.fill_heights(r.right, bh, Ghost(w), Ghost(hw), Ghost(valid));
        }
        let ghost b2 = bh@;
        let n = self.len();
        proof {
            assert(below < w.hi[a as int] - w.lo[a as int]);
            assert(w.hi[a as int] <= w.order.len() < n);
        }
        let h = if r.color == Color::Red {
            below
        } else {
            below + 1
        };
        bh.set(a, h);
        proof {
            assert forall|x: int| 0 <= x < self@.len() && !in_subtree(w, a, x) implies
                #[trigger] bh@[x] == b0[x] by {
                if r.left != 0 {
                    assert(!in_subtree(w, r.left, x));
                }
                if r.right != 0 {
                    assert(!in_subtree(w, r.right, x));
                }
                assert(b2[x] == b1[x]);
                assert(b1[x] == b0[x]);
            }
            if valid {
                assert(height_ok(self@, hw, a as int));
                assert forall|x: int| 0 <= x < self@.len() && in_subtree(w, a, x) implies
                    #[trigger] bh@[x] == hw[x] by {
                    if x > 0 {
                        assert(slot_ok(self@, w, x));
                    }
                    if x != a {
                        if w.pos[x] < w.pos[a as int] {
                            assert(in_subtree(w, r.left, x));
                            assert(r.right != 0 ==> !in_subtree(w, r.right, x));
                            assert(b1[x] == hw[x]);
                            assert(b2[x] == b1[x]);
                        } else {
                            assert(in_subtree(w, r.right, x));
                            assert(b2[x] == hw[x]);
                        }
                    } else {
                        if r.left != 0 {
                            assert(in_subtree(w, r.left, r.left as int));
                            assert(r.right != 0 ==> !in_subtree(w, r.right, r.left as int));
                            assert(b1[r.left as int] == hw[r.left as int]);
                            assert(b2[r.left as int] == b1[r.left as int]);
                        }
                    }
                }
            }
        }
        h
    }

    /// Whether the black heights at `a` are in order and `a`, if red, has
    /// no red child.
    fn colors_in(&self, bh: &Vec<usize>, a: usize, Ghost(w): Ghost<Shape>) -> (ok: bool)
        requires
            structured(self@, w),
            bh@.len() == self@.len(),
            0 < a < self@.len(),
        ensures
            ok == (height_ok(self@, heights_of(bh@), a as int) && red_ok(self@, a as int)),
    {
        proof {
            assert(slot_ok(self@, w, a as int));
        }
        let r = self.rec(a);
        let hl = if r.left == 0 {
            0
        } else {
            bh[r.left]
        };
        let hr = if r.right == 0 {
            0
        } else {
            bh[r.right]
        };
        if hl != hr {
            return false;
        }
        if r.color == Color::Red {
            if bh[a] != hl {
                return false;
            }
            let left_red = r.left != 0 && self.rec(r.left).color == Color::Red;
            let right_red = r.right != 0 && self.rec(r.right).color == Color::Red;
            !left_red && !right_red
        } else {
            hl < usize::MAX && bh[a] == hl + 1
        }
    }

    /// Whether the store holds a red-black tree: a search tree whose root
    /// is black, in which no red record has a red child and every path from
    /// a record down to an absent link passes the same number of black
    /// records.
    pub fn validate_red_black(&self) -> (ok: bool)
        ensures
            ok == self.is_red_black(),
    {
        if !self.validate() {
            return false;
        }
        let ghost w = choose|s: Shape| structured(self@, s);
        let ghost valid = self.is_red_black();
        let ghost hw = choose|bh: Seq<nat>| colored(self@, bh);
        let n = self.len();
        let root = self.rec(0).right;
        if root != 0 && self.rec(root).color == Color::Red {
            return false;
        }
        let mut bh: Vec<usize> = Vec::new();
        let mut k: usize = 0;
        while k < n
            invariant
                k <= n,
                bh@.len() == k,
                forall|x: int| 0 <= x < k ==> #[trigger] bh@[x] == 1,
            decreases n - k,
        {
            bh.push(1);
            k = k + 1;
        }
        if root != 0 {
            let _ = self.fill_heights(root, &mut bh, Ghost(w), Ghost(hw), Ghost(valid));
        }
        proof {
            if valid {
                assert forall|x: int| 0 < x < n implies #[trigger] bh@[x] == hw[x] by {
                    assert(slot_ok(self@, w, x));
                    assert(height_ok(self@, hw, x));
                    if root != 0 {
                        assert(slot_ok(self@, w, root as int));
                    }
                    if live(w, x) {
                        assert(in_subtree(w, root, x));
                    }
                }
            }
        }
        let mut a: usize = 1;
        while a < n
            invariant
                n == self@.len(),
                structured(self@, w),
                bh@.len() == n,
                1 <= a <= n,
                forall|x: int| 0 < x < a ==> #[trigger] height_ok(self@, heights_of(bh@), x),
                forall|x: int| 0 < x < a ==> #[trigger] red_ok(self@, x),
                valid == self.is_red_black(),
                !is_red(self@, self@[0].right),
                valid ==> colored(self@, hw),
                valid ==> forall|x: int| 0 < x < n ==> #[trigger] bh@[x] == hw[x],
            decreases n - a,
        {
            proof {
                if valid {
                    assert(slot_ok(self@, w, a as int));
                    assert(height_ok(self@, hw, a as int));
                    assert(red_ok(self@, a as int));
                    let r = self@[a as int];
                    if r.left != 0 {
                        assert(bh@[r.left as int] == hw[r.left as int]);
                    }
                    if r.right != 0 {
                        assert(bh@[r.right as int] == hw[r.right as int]);
                    }
                    assert(bh@[a as int] == hw[a as int]);
                    assert(height_ok(self@, heights_of(bh@), a as int));
                }
            }
            if !self.colors_in(&bh, a, Ghost(w)) {
                return false;
            }
            a = a + 1;
        }
        proof {
            assert(colored(self@, heights_of(bh@)));
        }
        true
    }
}

/// A survey that agrees with a shape of the store on every record of the
/// tree, and has reached no other, stands for a shape of the store.
proof fn lemma_survey_agrees(recs: Seq<Record>, w: Shape, v: Survey)
    requires
        structured(recs, w),
        recs.len() <= usize::MAX,
        v.fits(recs.len()),
        v.order@ == w.order,
        forall|x: int|
            0 <= x < recs.len() && 0 <= w.pos[x] < w.order.len() ==> #[trigger] v.pos@[x]
                == w.pos[x],
        forall|x: int|
            0 <= x < recs.len() && !(0 <= w.pos[x] < w.order.len()) ==> #[trigger] v.pos@[x]
                == usize::MAX,
        forall|x: int|
            0 <= x < recs.len() && 0 <= w.pos[x] < w.order.len() ==> #[trigger] v.lo@[x]
                == w.lo[x],
        forall|x: int| 0 <= x < recs.len() && 0 <= w.pos[x] ==> #[trigger] v.hi@[x] == w.hi[x],
    ensures
        structured(recs, v.shape()),
{
    let s = v.shape();
    assert forall|x: int| 0 < x < recs.len() implies (w.pos[x] >= 0 ==> w.pos[x] < w.order.len()
        && s.pos[x] == w.pos[x] && s.lo[x] == w.lo[x] && s.hi[x] == w.hi[x]) && (w.pos[x] < 0
        ==> s.pos[x] < 0) by {
        assert(slot_ok(recs, w, x));
        if w.pos[x] >= 0 {
            assert(v.pos@[x] == w.pos[x]);
            assert(v.lo@[x] == w.lo[x]);
            assert(v.hi@[x] == w.hi[x]);
        } else {
            assert(v.pos@[x] == usize::MAX);
        }
    }
    assert(v.pos@[0] == usize::MAX);
    if recs[0].right != 0 {
        assert(slot_ok(recs, w, recs[0].right as int));
    }
    assert(anchored(recs, s));
    assert forall|i: int| 0 <= i < s.order.len() implies 0 < (#[trigger] s.order[i]) < recs.len()
        && s.pos[s.order[i] as int] == i by {
        assert(0 < w.order[i] < recs.len());
        assert(w.pos[w.order[i] as int] == i);
    }
    assert forall|x: int| 0 < x < recs.len() implies #[trigger] slot_ok(recs, s, x) by {
        assert(slot_ok(recs, w, x));
        let r = recs[x];
        if w.pos[x] >= 0 {
            if r.left != 0 {
                assert(slot_ok(recs, w, r.left as int));
            }
            if r.right != 0 {
                assert(slot_ok(recs, w, r.right as int));
            }
            if r.parent != 0 {
                assert(slot_ok(recs, w, r.parent as int));
            }
        }
    }
}

} // verus!
