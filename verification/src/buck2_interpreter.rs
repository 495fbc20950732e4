//! What the interpreter is told about the machine it runs on.

pub mod extra;
pub mod factory;
