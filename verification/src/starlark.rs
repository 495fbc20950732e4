//! What the values of the configuration language need in order to be kept
//! after the evaluation that made them.

pub mod freeze;
