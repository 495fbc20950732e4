//! What running an action leaves behind.

pub mod dep_file_digest;
