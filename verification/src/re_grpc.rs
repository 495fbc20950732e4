//! The client side of the remote execution service: what is sent back.

pub mod digest;
pub mod error;
pub mod response;
