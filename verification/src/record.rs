//! Order records and the comparator that orders them.

use vstd::prelude::*;

verus! {

/// The address of a record in the store. Address 0 is the sentinel and also
/// stands for "absent" in a link.
pub type Address = usize;

/// The colour of a record.
#[derive(Clone, Copy, Debug, PartialEq, Eq, Structural)]
pub enum Color {
    Red,
    Black,
    /// Carried only by the sentinel record at address 0.
    RootSentinel,
}

/// One slot of the record store: tree links, the order it holds, and the
/// change flag.
#[derive(Clone, Copy, Debug, PartialEq, Eq, Structural)]
pub struct Record {
    pub color: Color,
    pub parent: Address,
    pub left: Address,
    pub right: Address,
    pub quantity: u64,
    pub price: u64,
    pub time: u64,
    pub order_id: u64,
    /// Set when the record was written since the change log was last drained.
    pub dirty: bool,
}

/// The outcome of comparing two orders. Orders are never reported equal:
/// an order that is not greater is less.
#[derive(Clone, Copy, Debug, PartialEq, Eq, Structural)]
pub enum Priority {
    Less,
    Greater,
}

/// `a` ranks above `b`: a higher price, or the same price and a later time.
pub open spec fn key_gt(a: Record, b: Record) -> bool {
    a.price > b.price || (a.price == b.price && a.time > b.time)
}

/// The two records hold the same order and the same links; only the change
/// flag may differ.
pub open spec fn same_content(a: Record, b: Record) -> bool {
    a == (Record { dirty: a.dirty, ..b })
}

/// The record holds nothing: black, unlinked, all order fields zero.
pub open spec fn vacant(r: Record) -> bool {
    &&& r.color == Color::Black
    &&& r.parent == 0
    &&& r.left == 0
    &&& r.right == 0
    &&& r.quantity == 0
    &&& r.price == 0
    &&& r.time == 0
    &&& r.order_id == 0
}

/// The record that a slot holds before anything is written to it: the
/// sentinel at address 0, a vacant record elsewhere.
pub open spec fn blank(a: int) -> Record {
    Record {
        color: if a == 0 {
            Color::RootSentinel
        } else {
            Color::Black
        },
        parent: 0,
        left: 0,
        right: 0,
        quantity: 0,
        price: 0,
        time: 0,
        order_id: 0,
        dirty: false,
    }
}

impl Record {
    /// A record that holds nothing, with the given change flag.
    pub fn empty(dirty: bool) -> (r: Record)
        ensures
            vacant(r),
            r.dirty == dirty,
            !dirty ==> forall|a: int| a != 0 ==> r == blank(a),
    {
        Record {
            color: Color::Black,
            parent: 0,
            left: 0,
            right: 0,
            quantity: 0,
            price: 0,
            time: 0,
            order_id: 0,
            dirty,
        }
    }

    /// The sentinel record as it stands in an empty book.
    pub fn sentinel() -> (r: Record)
        ensures
            r == blank(0),
    {
        Record {
            color: Color::RootSentinel,
            parent: 0,
            left: 0,
            right: 0,
            quantity: 0,
            price: 0,
            time: 0,
            order_id: 0,
            dirty: false,
        }
    }
}

/// Compares two orders by price, then by arrival time.
pub fn compare(a: &Record, b: &Record) -> (p: Priority)
    ensures
        p == Priority::Greater <==> key_gt(*a, *b),
{
    if a.price > b.price {
        Priority::Greater
    } else if a.price == b.price && a.time > b.time {
        Priority::Greater
    } else {
        Priority::Less
    }
}

/// Whether `a` ranks above `b`.
pub fn ranks_above(a: &Record, b: &Record) -> (g: bool)
    ensures
        g == key_gt(*a, *b),
{
    a.price > b.price || (a.price == b.price && a.time > b.time)
}

} // verus!
