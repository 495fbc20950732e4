//! Actions.

pub mod key;
