//! What the parts of the daemon share.

pub mod memory;
