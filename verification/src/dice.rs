//! The incremental-computation engine.
//!
//! Keys are interned to compact handles. Every committed batch of changes
//! produces a new version; computed values are stored per key together with
//! the versions over which they hold, and in-flight computations are tracked
//! per version so that they can be cancelled once nobody looks at that version
//! any more.

pub mod key;
pub mod value;
pub mod versions;
pub mod task;
pub mod cache;
pub mod version_tracker;
pub mod graph;
pub mod internals;
pub mod metrics;
pub mod transaction;
pub mod error;
pub mod modern;
pub mod user_data;
