//! A limit-order-book index: a red-black tree of resting orders laid out in a
//! flat, append-only record store, with a matching engine that crosses
//! aggressive orders against it by price-then-time priority.
//!
//! Records refer to one another by integer address. Address 0 is a permanent
//! sentinel whose right link anchors the tree root; addresses are handed out
//! in increasing order and never reused.
//!
//! - `record`: the record, its colours, and the comparator.
//! - `shape`: what it means for a store to hold a search tree, and a
//!   red-black one.
//! - `book`: the store itself and its primitives.
//! - `rotate`, `place`, `insert`: rotations, the search for a slot, and
//!   insertion with its repair of the colours.
//! - `remove`, `swap`, `rebalance`, `delete`: deletion and its parts.
//! - `matching`: the matching engine.
//! - `changes`: the change log, listings, and loading a book from one.
//! - `event`: inbound order events.
//! - `validate`: deciding whether a store holds a search tree, and a
//!   red-black one.
//! - `laws`: what holds of every well-formed book.
//! - `program`: the same book as a Miden assembly program.

pub mod record;
pub mod shape;
pub mod book;
pub mod rotate;
pub mod place;
pub mod insert;
pub mod remove;
pub mod swap;
pub mod rebalance;
pub mod delete;
pub mod matching;
pub mod changes;
pub mod event;
pub mod validate;
pub mod program;
pub mod laws;
