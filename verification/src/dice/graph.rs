//! The versioned graph: for each key the history of its values, with the
//! versions over which each value holds.

pub mod history;
pub mod laws;
pub mod model;
pub mod storage;
pub mod types;
