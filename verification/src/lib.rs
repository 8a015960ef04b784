//! Pools of Beaver triples and presignatures for a threshold-ECDSA signing node.
//!
//! A signature spends one presignature, and a presignature spends two triples.  Both take
//! a multi-party protocol of several rounds to make, so a node keeps a stock of them.  The
//! managers in this crate own the stock and the generators that add to it.  They advance
//! the generators step by step, hand a completed item out at most once, and keep every
//! item and every generator fenced to the epoch it belongs to.
//!
//! * [`store`] holds completed items by id, with the queue of those that this node
//!   initiated.
//! * [`protocol`] is the boundary to the protocols themselves, which are opaque.
//! * [`triple`] and [`presignature`] are the two managers.
//! * [`router`] hands inbound messages to the generator they are meant for.
//! * [`supply`] is the policy that starts new generators.
//! * [`epoch`] is the change of epoch, which cancels what is under way.
//! * [`laws`] states what holds of the pools whatever is done with them.
//!
//! Every type that has rules has a model, a mathematical value that the contracts speak
//! of: [`store::PoolModel`], [`triple::TripleManagerModel`],
//! [`presignature::PresignatureManagerModel`].  The crate does no input or output and
//! reads no clock: it is handed the time where a rule depends on it.

pub mod types;
pub mod errors;
pub mod protocol;
pub mod store;
pub mod outbox;
pub mod generator;
pub mod triple;
pub mod presignature;
pub mod router;
pub mod supply;
pub mod epoch;
pub mod laws;
