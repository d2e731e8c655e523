//! Inbound order events: a maker rests in the book, a taker is matched
//! against it.

use vstd::prelude::*;
use crate::book::OrderBook;
use crate::delete::DeleteError;
use crate::insert::inserted;
use crate::matching::{matched, stalls};
use crate::record::Address;
use crate::shape::tracked_from;

verus! {

/// The side of an inbound order.
#[derive(Clone, Copy, Debug, PartialEq, Eq, Structural)]
pub enum Side {
    /// A resting order: it is inserted into the book.
    Maker,
    /// An aggressive order: it is matched against the book and never rests.
    Taker,
}

/// An order as the host hands it in.
#[derive(Clone, Copy, Debug, PartialEq, Eq, Structural)]
pub struct OrderEvent {
    pub order_id: u64,
    pub time: u64,
    pub price: u64,
    pub quantity: u64,
    pub side: Side,
}

/// What became of an inbound order.
#[derive(Clone, Copy, Debug, PartialEq, Eq, Structural)]
pub enum Outcome {
    /// The order rests at this address.
    Rested { address: Address },
    /// The order was matched.
    Matched { filled: u64, remaining: u64 },
}

impl OrderBook {
    /// Handles one inbound order: inserts a maker, matches a taker.
    pub fn submit(&mut self, event: OrderEvent) -> (res: Result<Outcome, DeleteError>)
        requires
            old(self).wf(),
        ensures
            final(self).wf(),
            tracked_from(old(self)@, final(self)@),
            event.side == Side::Maker ==> {
                &&& res == Ok::<Outcome, DeleteError>(
                    Outcome::Rested { address: old(self)@.len() as usize },
                )
                &&& final(self)@ == inserted(
                    old(self)@,
                    event.quantity,
                    event.price,
                    event.time,
                    event.order_id,
                )
                &&& (old(self).is_red_black() ==> final(self).is_red_black())
            },
            event.side == Side::Taker ==> {
                let end = matched(old(self)@, event.quantity, event.price, old(self)@.len());
                &&& final(self)@ == end.0
                &&& end.1 <= event.quantity
                &&& if stalls(end.0, end.1, event.price) {
                    res == Err::<Outcome, DeleteError>(DeleteError::MissingSibling)
                } else {
                    res == Ok::<Outcome, DeleteError>(
                        Outcome::Matched {
                            filled: (event.quantity - end.1) as u64,
                            remaining: end.1,
                        },
                    )
                }
            },
    {
        match event.side {
            Side::Maker => {
                let address = self.insert(event.quantity, event.price, event.time, event.order_id);
                Ok(Outcome::Rested { address })
            },
            Side::Taker => {
                match self.match_against_book(event.quantity, event.price) {
                    Ok((filled, remaining)) => Ok(Outcome::Matched { filled, remaining }),
                    Err(e) => Err(e),
                }
            },
        }
    }
}

} // verus!
