//! The names that the build system gives to cells, packages and files.

pub mod build_file_path;
pub mod bzl;
pub mod cells;
pub mod deferred;
pub mod fs;
pub mod package;
