//! Running actions.

pub mod execute;
