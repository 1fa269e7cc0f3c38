//! Incremental synchronization engine for an append-only purchase-history
//! feed. The library resolves the date range that still has to be fetched
//! from the external source, normalizes fetched records, and persists them
//! exactly once through an atomic, all-or-nothing unit of work.

pub mod amazon_browser;
pub mod business;
pub mod category;
pub mod date;
pub mod history;
pub mod item;
pub mod log;
pub mod range;
pub mod source;
pub mod store;
pub mod sync;
pub mod tx;
pub mod utils;

use vstd::prelude::*;

verus! {

/// How a persistence operation can fail.
///
/// `NotFound` is the expected, non-fatal "row missing" outcome; `Constraint`
/// reports a uniqueness or foreign-key violation; `Transport` stands for a
/// connection-level failure, kept separate because it is the only retryable
/// failure class.
#[derive(Clone, Copy, Debug, PartialEq, Eq, Structural)]
pub enum PersistenceError {
    NotFound,
    Constraint,
    Transport,
}

} // verus!
