//! Graphs of targets in the dot language.

pub mod targets;
