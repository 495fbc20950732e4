//! What the interpreter does for build files: it turns the values that the
//! files give into attributes, and keeps what a package file sets.

pub mod enumeration;
pub mod package;
