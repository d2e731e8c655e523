//! The record store and the order book built on it.

use vstd::prelude::*;
use crate::record::{blank, vacant, Address, Color, Record};
use crate::shape::{colored, structured, tracked_from, Shape};

verus! {

/// A book of resting orders: a record store whose slot 0 is the sentinel.
#[derive(Debug)]
pub struct OrderBook {
    pub(crate) records: Vec<Record>,
}

impl View for OrderBook {
    type V = Seq<Record>;

    closed spec fn view(&self) -> Seq<Record> {
        self.records@
    }
}

impl OrderBook {
    /// The store holds a search tree: links are mutually consistent, every
    /// record of the tree is red or black, slots outside the tree are vacant,
    /// and the in-order listing never descends.
    pub open spec fn wf(&self) -> bool {
        exists|s: Shape| structured(self@, s)
    }

    /// The tree is a red-black tree: the root is black, no red record has a
    /// red child, and every path from a record down to an absent link passes
    /// the same number of black records.
    pub open spec fn is_red_black(&self) -> bool {
        self.wf() && exists|bh: Seq<nat>| colored(self@, bh)
    }

    /// The address of the root, 0 for an empty tree.
    pub open spec fn root(&self) -> usize {
        self@[0].right
    }

    /// An empty book: the sentinel alone.
    pub fn new() -> (book: OrderBook)
        ensures
            book.wf(),
            book.is_red_black(),
            book@ == seq![blank(0)],
            book.root() == 0,
            book.inorder() == Seq::<usize>::empty(),
    {
        let mut records: Vec<Record> = Vec::new();
        records.push(Record::sentinel());
        let book = OrderBook { records };
        proof {
            let s = Shape { order: Seq::empty(), pos: seq![-1int], lo: seq![0int], hi: seq![0int] };
            assert(book@ =~= seq![blank(0)]);
            assert(structured(book@, s));
            crate::shape::lemma_inorder(book@, s);
            let bh: Seq<nat> = seq![0nat];
            assert(colored(book@, bh));
        }
        book
    }

    /// The number of slots in the store, the sentinel included. It is also
    /// the next address that `allocate` hands out.
    pub fn len(&self) -> (n: usize)
        ensures
            n == self@.len(),
    {
        self.records.len()
    }

    /// The record at `addr`. An address that was never handed out reads as
    /// a vacant record.
    pub fn read(&self, addr: Address) -> (r: Record)
        ensures
            addr < self@.len() ==> r == self@[addr as int],
            addr >= self@.len() ==> vacant(r) && !r.dirty,
    {
        if addr < self.records.len() {
            self.records[addr]
        } else {
            Record::empty(false)
        }
    }

    /// Stores `rec` at `addr`, as it is given.
    pub fn write(&mut self, addr: Address, rec: Record)
        requires
            addr < old(self)@.len(),
        ensures
            final(self)@ == old(self)@.update(addr as int, rec),
    {
        self.records.set(addr, rec);
    }

    /// The in-order listing of the tree: the addresses of the resting
    /// orders, lowest priority first.
    pub open spec fn inorder(&self) -> Seq<usize> {
        crate::shape::inorder(self@)
    }

    /// Whether the record at `addr` is in the tree.
    pub open spec fn contains(&self, addr: usize) -> bool {
        self.inorder().contains(addr)
    }

    /// Appends `rec` to the store.
    pub(crate) fn grow(&mut self, rec: Record)
        ensures
            final(self)@ == old(self)@.push(rec),
    {
        self.records.push(rec);
    }

    /// Hands out a fresh address, one above the last, holding a vacant
    /// record. No address is ever handed out twice.
    pub fn allocate(&mut self) -> (addr: Address)
        ensures
            addr == old(self)@.len(),
            final(self)@.len() == old(self)@.len() + 1,
            final(self)@ == old(self)@.push(final(self)@[addr as int]),
            vacant(final(self)@[addr as int]),
            final(self)@[addr as int].dirty,
            old(self).wf() ==> final(self).wf(),
            old(self).is_red_black() ==> final(self).is_red_black(),
            tracked_from(old(self)@, final(self)@),
    {
        let addr = self.records.len();
        self.records.push(Record::empty(true));
        proof {
            if old(self).wf() {
                let s = choose|s: Shape| structured(old(self)@, s);
                let s2 = Shape { pos: s.pos.push(-1), lo: s.lo.push(0), hi: s.hi.push(0), ..s };
                crate::shape::lemma_grow(old(self)@, self@, s, s2);
                if old(self).is_red_black() {
                    let bh = choose|bh: Seq<nat>| colored(old(self)@, bh);
                    crate::shape::lemma_grow_colored(old(self)@, self@, s, bh, bh.push(1));
                }
            }
        }
        addr
    }

    /// The record at `a`, which is inside the store.
    pub(crate) fn rec(&self, a: usize) -> (r: Record)
        requires
            a < self@.len(),
        ensures
            r == self@[a as int],
    {
        self.records[a]
    }

    /// Sets the colour of the record at `a` and flags it.
    pub(crate) fn set_color(&mut self, a: usize, c: Color)
        requires
            a < old(self)@.len(),
        ensures
            final(self)@ == old(self)@.update(
                a as int,
                (Record { color: c, dirty: true, ..old(self)@[a as int] }),
            ),
    {
        let r = self.records[a];
        self.records.set(a, Record { color: c, dirty: true, ..r });
    }

    /// Sets the left link of the record at `a` and flags it.
    pub(crate) fn set_left(&mut self, a: usize, x: usize)
        requires
            a < old(self)@.len(),
        ensures
            final(self)@ == old(self)@.update(
                a as int,
                (Record { left: x, dirty: true, ..old(self)@[a as int] }),
            ),
    {
        let r = self.records[a];
        self.records.set(a, Record { left: x, dirty: true, ..r });
    }

    /// Sets the right link of the record at `a` and flags it.
    pub(crate) fn set_right(&mut self, a: usize, x: usize)
        requires
            a < old(self)@.len(),
        ensures
            final(self)@ == old(self)@.update(
                a as int,
                (Record { right: x, dirty: true, ..old(self)@[a as int] }),
            ),
    {
        let r = self.records[a];
        self.records.set(a, Record { right: x, dirty: true, ..r });
    }

    /// Sets the parent link of the record at `a` and flags it.
    pub(crate) fn set_parent(&mut self, a: usize, x: usize)
        requires
            a < old(self)@.len(),
        ensures
            final(self)@ == old(self)@.update(
                a as int,
                (Record { parent: x, dirty: true, ..old(self)@[a as int] }),
            ),
    {
        let r = self.records[a];
        self.records.set(a, Record { parent: x, dirty: true, ..r });
    }

    /// Sets the quantity of the record at `a` and flags it.
    pub(crate) fn set_quantity(&mut self, a: usize, q: u64)
        requires
            a < old(self)@.len(),
        ensures
            final(self)@ == old(self)@.update(
                a as int,
                (Record { quantity: q, dirty: true, ..old(self)@[a as int] }),
            ),
    {
        let r = self.records[a];
        self.records.set(a, Record { quantity: q, dirty: true, ..r });
    }

    /// Makes `new_child` the child of `p` on the side that held `old_child`:
    /// on the left if the left link of `p` is `old_child`, else on the
    /// right. The sentinel holds its only child, the root, on the right.
    /// The record at `p` is flagged.
    pub fn set_child(&mut self, p: Address, old_child: Address, new_child: Address)
        requires
            p < old(self)@.len(),
        ensures
            final(self)@ == with_child(old(self)@, p, old_child, new_child),
    {
        if p != 0 && self.records[p].left == old_child {
            self.set_left(p, new_child);
        } else {
            self.set_right(p, new_child);
        }
    }
}

/// The store after `new_child` took the place of `old_child` under `p`.
pub open spec fn with_child(recs: Seq<Record>, p: usize, old_child: usize, new_child: usize) -> Seq<
    Record,
> {
    if p != 0 && recs[p as int].left == old_child {
        recs.update(p as int, (Record { left: new_child, dirty: true, ..recs[p as int] }))
    } else {
        recs.update(p as int, (Record { right: new_child, dirty: true, ..recs[p as int] }))
    }
}

} // verus!
