//! The key under which the engine computes a bxl function.

use std::sync::Arc;

use vstd::prelude::*;

use crate::buck2_error::error::Error;
use crate::dice::key::InvalidationSourcePriority;
use crate::dice::key::Key;
use crate::dice::key::StorageType;

verus! {

/// Names a bxl function with its arguments.
pub struct BxlKey {
    pub label: u64,
}

/// What the evaluation of a bxl function leaves behind.
pub struct BxlResult {
    pub output: String,
}

pub struct BxlComputeResult(pub Arc<BxlResult>);

/// The evaluation of a bxl function failed.
pub struct BxlEvalError {
    pub error: Error,
}

pub struct BxlComputeKey(pub BxlKey);

impl BxlComputeKey {
    /// Whether a value is kept in the graph: failures are not, since an
    /// evaluation may fail only because it was cancelled.
    pub fn validity(x: &Result<BxlComputeResult, BxlEvalError>) -> (valid: bool)
        ensures
            valid == (*x is Ok),
    {
        x.is_ok()
    }
}

impl Key for BxlComputeKey {
    type Value = Result<BxlComputeResult, BxlEvalError>;

    open spec fn storage_type_spec(&self) -> StorageType {
        StorageType::Normal
    }

    fn storage_type(&self) -> (s: StorageType) {
        StorageType::Normal
    }

    open spec fn priority_spec(&self) -> InvalidationSourcePriority {
        InvalidationSourcePriority::Normal
    }

    fn invalidation_source_priority(&self) -> (p: InvalidationSourcePriority) {
        InvalidationSourcePriority::Normal
    }

    fn same_key(&self, other: &Self) -> (b: bool) {
        self.0.label == other.0.label
    }

    open spec fn hash_spec(&self) -> u64 {
        self.0.label
    }

    fn hash_code(&self) -> (h: u64) {
        self.0.label
    }

    /// No two results count as equal: what was computed from a result is
    /// computed anew whenever the bxl function was evaluated again.
    open spec fn equality_spec(x: &Self::Value, y: &Self::Value) -> bool {
        false
    }

    fn equality(_x: &Self::Value, _y: &Self::Value) -> (b: bool) {
        false
    }
}

} // verus!
