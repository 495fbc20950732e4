//! What goes into and comes out of the versioned graph.

use std::sync::Arc;

use vstd::prelude::*;

use crate::dice::key::DiceKey;
use crate::dice::key::Key;
use crate::dice::key::StorageType;
use crate::dice::value::DiceComputedValue;
use crate::dice::versions::VersionNumber;

verus! {

/// A key at a version.
#[derive(Clone, Copy, Debug, PartialEq, Eq, Structural, Hash)]
pub struct VersionedGraphKey {
    pub v: VersionNumber,
    pub k: DiceKey,
}

impl VersionedGraphKey {
    pub fn new(v: VersionNumber, k: DiceKey) -> (key: Self)
        ensures
            key.v == v,
            key.k == k,
    {
        VersionedGraphKey { v, k }
    }
}

/// Why the graph does not answer for a version.
#[derive(Clone, Copy, Debug, PartialEq, Eq, Structural, Hash)]
pub enum RejectedReason {
    /// The version was issued before the graph was last reset.
    RejectedDueToGraphClear,
}

/// What the graph knows of a key that has no value at the version asked
/// for.
pub struct VersionedGraphResultMismatch<K: Key> {
    /// The value of the last record that begins at that version or before.
    pub previous: Option<DiceComputedValue<K>>,
}

pub enum VersionedGraphResult<K: Key> {
    /// The key has this value at the version.
    Match(DiceComputedValue<K>),
    /// The key has to be computed at the version.
    Mismatch(VersionedGraphResultMismatch<K>),
    /// The version is obsolete.
    Rejected(RejectedReason),
}

/// How a key is invalidated.
pub enum InvalidateKind<K: Key> {
    /// The key has to be computed anew.
    ForceDirty,
    /// The key gets this value.
    Update(Arc<K::Value>, StorageType),
}

/// How the graph decides whether a value that was computed again is the
/// value that the key had just before.
#[derive(Clone, Copy, Debug, PartialEq, Eq, Structural, Hash)]
pub enum ValueReusable {
    /// By the equality of the key type.
    EqualityBased,
    /// By the version at which the requester found the dependencies of the
    /// earlier value unchanged: the earlier value is reused if it held at
    /// that version.
    VersionBased(VersionNumber),
}

} // verus!
