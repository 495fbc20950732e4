//! Counters for outside observers.

use vstd::prelude::*;

verus! {

#[derive(Clone, Copy, Debug, PartialEq, Eq, Structural)]
pub struct Metrics {
    /// How many keys the graph knows something of.
    pub key_count: usize,
    /// How many tasks have not ended, over all versions that are looked at.
    pub currently_active_key_count: usize,
    /// How many views are out, over all versions.
    pub active_transaction_count: u32,
}

} // verus!
