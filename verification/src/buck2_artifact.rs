//! Artifacts and the actions that produce them.

pub mod actions;
