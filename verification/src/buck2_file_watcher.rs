//! What the file watcher tells the computations.

pub mod mergebase;
