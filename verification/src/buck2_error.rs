//! The error type that the parts of the build system hand to each other: a
//! root cause with a stack of context on top.

pub mod context_value;
pub mod error;
pub mod root;
