//! What a build asks of the graph of targets.

pub mod configure_targets;
pub mod execution_platform_registration_info;
