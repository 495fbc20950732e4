//! What the server does around each command.

pub mod commands;
