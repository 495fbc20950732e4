//! What the memory tracker measures.

use vstd::prelude::*;

verus! {

/// Whether the pressure on memory is over the limit that was set.
#[derive(Clone, Copy, Debug, PartialEq, Eq, Structural)]
pub enum MemoryPressureState {
    AbovePressureLimit,
    BelowPressureLimit,
}

/// One reading of the memory of the daemon and of everything it runs.
#[derive(Clone, Copy, Debug, PartialEq, Eq, Structural)]
pub struct MemoryReading {
    pub buck2_slice_memory_current: u64,
    pub buck2_slice_memory_swap_current: u64,
    pub buck2_slice_memory_pressure: u64,
    pub daemon_memory_current: u64,
    pub daemon_memory_swap_current: u64,
}

} // verus!
