//! Change tracking and snapshots: draining the log of flagged records,
//! listing the whole store, and building a book from listed records.

use vstd::prelude::*;
use crate::book::OrderBook;
use crate::record::{blank, key_gt, same_content, Address, Record};
use crate::shape::{
    colored, height_ok, inorder, lemma_inorder, red_ok, slot_ok, structured, Shape,
};

verus! {

/// The record with its change flag cleared.
pub open spec fn settled(r: Record) -> Record {
    Record { dirty: false, ..r }
}

/// The store with every change flag cleared.
pub open spec fn settled_all(recs: Seq<Record>) -> Seq<Record> {
    Seq::new(recs.len(), |a: int| settled(recs[a]))
}

/// The log of the first `n` slots: each flagged record with its address, in
/// ascending order of address, as it stands once its flag is cleared.
pub open spec fn log_upto(recs: Seq<Record>, n: nat) -> Seq<(usize, Record)>
    decreases n,
{
    if n == 0 {
        Seq::empty()
    } else if recs[n - 1].dirty {
        log_upto(recs, (n - 1) as nat).push(((n - 1) as usize, settled(recs[n - 1])))
    } else {
        log_upto(recs, (n - 1) as nat)
    }
}

/// The change log of a store: every flagged record, lowest address first.
pub open spec fn change_log(recs: Seq<Record>) -> Seq<(usize, Record)> {
    log_upto(recs, recs.len())
}

/// The two stores differ in change flags only.
pub open spec fn same_contents(a: Seq<Record>, b: Seq<Record>) -> bool {
    &&& a.len() == b.len()
    &&& forall|i: int| 0 <= i < a.len() ==> same_content(#[trigger] b[i], a[i])
}

/// Change flags do not matter to the tree: a store that differs from a
/// well-formed one in flags only holds the same tree with the same
/// colours.
pub proof fn lemma_same_contents(a: Seq<Record>, b: Seq<Record>, s: Shape)
    requires
        same_contents(a, b),
        structured(a, s),
    ensures
        structured(b, s),
        inorder(b) == inorder(a),
        forall|bh: Seq<nat>| colored(a, bh) ==> colored(b, bh),
{
    assert forall|x: int| 0 < x < b.len() implies #[trigger] slot_ok(b, s, x) by {
        assert(slot_ok(a, s, x));
        assert(same_content(b[x], a[x]));
        if a[x].left != 0 {
            assert(same_content(b[a[x].left as int], a[a[x].left as int]));
        }
        if a[x].right != 0 {
            assert(same_content(b[a[x].right as int], a[a[x].right as int]));
        }
        assert(same_content(b[a[x].parent as int], a[a[x].parent as int]));
    }
    assert(same_content(b[0], a[0]));
    if a[0].right != 0 {
        assert(same_content(b[a[0].right as int], a[a[0].right as int]));
    }
    assert forall|i: int| 0 <= i < s.order.len() implies 0 < (#[trigger] s.order[i]) < b.len()
        && s.pos[s.order[i] as int] == i by {
        assert(0 < s.order[i] < a.len());
    }
    assert forall|i: int, j: int| 0 <= i < j < s.order.len() implies !key_gt(
        #[trigger] b[s.order[i] as int],
        #[trigger] b[s.order[j] as int],
    ) by {
        assert(0 < s.order[i] < a.len());
        assert(0 < s.order[j] < a.len());
        assert(!key_gt(a[s.order[i] as int], a[s.order[j] as int]));
    }
    lemma_inorder(a, s);
    lemma_inorder(b, s);
    assert forall|bh: Seq<nat>| colored(a, bh) implies colored(b, bh) by {
        assert forall|x: int| 0 < x < b.len() implies #[trigger] height_ok(b, bh, x) by {
            assert(height_ok(a, bh, x));
            assert(same_content(b[x], a[x]));
        }
        assert forall|x: int| 0 < x < b.len() implies #[trigger] red_ok(b, x) by {
            assert(red_ok(a, x));
            assert(slot_ok(a, s, x));
            assert(same_content(b[x], a[x]));
            if a[x].left != 0 {
                assert(same_content(b[a[x].left as int], a[a[x].left as int]));
            }
            if a[x].right != 0 {
                assert(same_content(b[a[x].right as int], a[a[x].right as int]));
            }
        }
    }
}

/// The number of slots that the listed records need: one more than the
/// highest address listed, and at least the sentinel's.
pub open spec fn slots_for(entries: Seq<(usize, Record)>) -> int
    decreases entries.len(),
{
    if entries.len() == 0 {
        1
    } else {
        let rest = slots_for(entries.drop_last());
        if entries.last().0 + 1 > rest {
            entries.last().0 + 1
        } else {
            rest
        }
    }
}

/// What address `a` holds after the listed records were written in turn:
/// the record of the last entry for `a`, or the blank record.
pub open spec fn slot_of(entries: Seq<(usize, Record)>, a: int) -> Record
    decreases entries.len(),
{
    if entries.len() == 0 {
        blank(a)
    } else if entries.last().0 == a {
        entries.last().1
    } else {
        slot_of(entries.drop_last(), a)
    }
}

/// The store that the listed records make.
pub open spec fn loaded(entries: Seq<(usize, Record)>) -> Seq<Record> {
    Seq::new(slots_for(entries) as nat, |a: int| slot_of(entries, a))
}

/// The listing of a whole store: every address with its record.
pub open spec fn listing(recs: Seq<Record>) -> Seq<(usize, Record)> {
    Seq::new(recs.len(), |a: int| (a as usize, recs[a]))
}

/// Every address listed lies inside the slots that the listing needs.
pub proof fn lemma_slots_for(entries: Seq<(usize, Record)>)
    ensures
        slots_for(entries) >= 1,
        forall|i: int| 0 <= i < entries.len() ==> (#[trigger] entries[i]).0 < slots_for(entries),
    decreases entries.len(),
{
    if entries.len() > 0 {
        let rest = entries.drop_last();
        lemma_slots_for(rest);
        assert forall|i: int| 0 <= i < entries.len() implies (#[trigger] entries[i]).0 < slots_for(
            entries,
        ) by {
            if i < rest.len() {
                assert(rest[i] == entries[i]);
            }
        }
    }
}

impl OrderBook {
    /// Lists every record whose change flag is set, lowest address first,
    /// and clears the flags. The records are listed as they stand after the
    /// drain, with their flags cleared.
    pub fn drain_changes(&mut self) -> (log: Vec<(Address, Record)>)
        ensures
            log@ == change_log(old(self)@),
            final(self)@ == settled_all(old(self)@),
            old(self).wf() ==> final(self).wf() && final(self).inorder() == old(self).inorder(),
            old(self).is_red_black() ==> final(self).is_red_black(),
    {
        let mut log: Vec<(Address, Record)> = Vec::new();
        let n = self.len();
        let mut i: usize = 0;
        while i < n
            invariant
                i <= n,
                n == old(self)@.len(),
                self@.len() == n,
                log@ == log_upto(old(self)@, i as nat),
                forall|a: int| 0 <= a < i ==> #[trigger] self@[a] == settled(old(self)@[a]),
                forall|a: int| i <= a < n ==> #[trigger] self@[a] == old(self)@[a],
            decreases n - i,
        {
            let r = self.rec(i);
            if r.dirty {
                let clean = Record { dirty: false, ..r };
                self.write(i, clean);
                log.push((i, clean));
            }
            i = i + 1;
        }
        proof {
            assert(self@ =~= settled_all(old(self)@));
            if old(self).wf() {
                let s = choose|s: Shape| structured(old(self)@, s);
                lemma_same_contents(old(self)@, self@, s);
                if old(self).is_red_black() {
                    let bh = choose|bh: Seq<nat>| colored(old(self)@, bh);
                    assert(colored(self@, bh));
                }
            }
        }
        log
    }

    /// Lists the whole store: every address with its record, lowest
    /// address first.
    pub fn snapshot(&self) -> (all: Vec<(Address, Record)>)
        ensures
            all@ == listing(self@),
    {
        let mut all: Vec<(Address, Record)> = Vec::new();
        let n = self.len();
        let mut i: usize = 0;
        while i < n
            invariant
                i <= n,
                n == self@.len(),
                all@.len() == i,
                forall|a: int| 0 <= a < i ==> #[trigger] all@[a] == (a as usize, self@[a]),
            decreases n - i,
        {
            all.push((i, self.rec(i)));
            i = i + 1;
        }
        proof {
            assert(all@ =~= listing(self@));
        }
        all
    }

    /// Builds a book from listed records without replaying history. The
    /// store gets one slot more than the highest address listed; the
    /// records are written in turn, a later entry for an address replacing
    /// an earlier one; an address that no entry names holds the blank
    /// record. Nothing is checked: the book is well-formed exactly if the
    /// records listed make a well-formed store.
    pub fn load(entries: &Vec<(Address, Record)>) -> (book: OrderBook)
        requires
            forall|i: int| 0 <= i < entries@.len() ==> (#[trigger] entries@[i]).0 < usize::MAX,
        ensures
            book@ == loaded(entries@),
    {
        let mut slots: usize = 1;
        let mut i: usize = 0;
        while i < entries.len()
            invariant
                i <= entries@.len(),
                slots == slots_for(entries@.take(i as int)),
                forall|j: int| 0 <= j < entries@.len() ==> (#[trigger] entries@[j]).0 < usize::MAX,
            decreases entries@.len() - i,
        {
            proof {
                assert(entries@.take(i + 1).drop_last() =~= entries@.take(i as int));
                assert(entries@.take(i + 1).last() == entries@[i as int]);
            }
            let a = entries[i].0;
            if a + 1 > slots {
                slots = a + 1;
            }
            i = i + 1;
        }
        proof {
            assert(entries@.take(entries@.len() as int) =~= entries@);
        }
        let mut book = OrderBook::blank_store(slots);
        let mut k: usize = 0;
        while k < entries.len()
            invariant
                k <= entries@.len(),
                slots == slots_for(entries@),
                book@.len() == slots,
                forall|a: int| 0 <= a < slots ==> #[trigger] book@[a] == slot_of(entries@.take(k as int), a),
            decreases entries@.len() - k,
        {
            proof {
                assert(entries@.take(k + 1).drop_last() =~= entries@.take(k as int));
                assert(entries@.take(k + 1).last() == entries@[k as int]);
                lemma_slots_for(entries@);
            }
            let e = entries[k];
            book.write(e.0, e.1);
            k = k + 1;
        }
        proof {
            assert(entries@.take(entries@.len() as int) =~= entries@);
            assert(book@ =~= loaded(entries@));
        }
        book
    }

    /// A store of `slots` blank records.
    pub(crate) fn blank_store(slots: usize) -> (book: OrderBook)
        requires
            slots >= 1,
        ensures
            book@.len() == slots,
            forall|a: int| 0 <= a < slots ==> #[trigger] book@[a] == blank(a),
    {
        let mut book = OrderBook::new();
        let mut i: usize = 1;
        while i < slots
            invariant
                1 <= i <= slots,
                book@.len() == i,
                forall|a: int| 0 <= a < i ==> #[trigger] book@[a] == blank(a),
            decreases slots - i,
        {
            book.grow(Record::empty(false));
            i = i + 1;
        }
        book
    }
}

} // verus!
