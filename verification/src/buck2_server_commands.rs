//! What the server answers to the commands that ask about targets.

pub mod dot;
