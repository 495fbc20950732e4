//! Building blocks of an incremental build system: an incremental-computation
//! engine with versioned, cancellable computations, together with the small
//! value types that its clients exchange.

pub mod dice;
pub mod seq_util;
pub mod buck2_error;
pub mod re_grpc;
pub mod text;
pub mod buck2_resource_control;
pub mod buck2_artifact;
pub mod buck2_common;
pub mod buck2_core;
pub mod buck2_execute;
pub mod buck2_file_watcher;
pub mod buck2_interpreter;
pub mod buck2_util;
pub mod buck2_bxl;
pub mod buck2_build_api;
pub mod buck2_interpreter_for_build;
pub mod buck2_server_ctx;
pub mod buck2_server_commands;
pub mod starlark;
