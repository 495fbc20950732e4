//! Small helpers.

pub mod commas;
