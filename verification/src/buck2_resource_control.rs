//! Keeping the memory of running actions in check: reading what the kernel
//! says about control groups, and deciding which action to freeze while
//! memory is short.

pub mod action_cgroups;
pub mod cgroup_info;
pub mod memory_tracker;
pub mod path;
