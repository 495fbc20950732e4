//! What the graph hands out for a key: the value, the versions over which it
//! holds, and why the key had to be looked at again.

use std::sync::Arc;

use dupe::Dupe;
use vstd::prelude::*;

use crate::dice::key::DiceKey;
use crate::dice::key::InvalidationSourcePriority;
use crate::dice::key::Key;
use crate::dice::versions::VersionNumber;
use crate::dice::versions::VersionRange;
use crate::dice::versions::VersionRanges;

verus! {

/// `dupe::Dupe::dupe` on an `Arc`: a second pointer to the same allocation,
/// so the result points to the value that `value` points to.
#[verifier::external_body]
pub(crate) fn dupe_arc<T>(value: &Arc<T>) -> (copy: Arc<T>)
    ensures
        copy == *value,
{
    value.dupe()
}

/// Whether `pointer` points to `value`.
pub open spec fn holds<T>(pointer: Arc<T>, value: T) -> bool {
    *pointer == value
}

/// The shared pointer to `value`. Two shared pointers are the same where
/// they point to the same value.
pub open spec fn shared<T>(value: T) -> Arc<T> {
    choose|pointer: Arc<T>| holds(pointer, value)
}

/// Wraps a value for sharing.
pub fn share<T>(value: T) -> (pointer: Arc<T>)
    ensures
        pointer == shared(value),
        *pointer == value,
{
    let pointer = Arc::new(value);
    proof {
        assert(holds(pointer, value));
    }
    pointer
}

/// The invalidation that made a node dirty.
#[derive(Clone, Copy, Debug, PartialEq, Eq, Structural)]
pub enum InvalidationPath {
    /// The node was not invalidated.
    Clean,
    /// The node is dirty because `source` changed at `version`.
    Invalidated { source: DiceKey, version: VersionNumber },
}

/// For each rank of invalidation source, the invalidation that reached a
/// node. Kept for diagnostics only.
#[derive(Clone, Copy, Debug, PartialEq, Eq, Structural)]
pub struct TrackedInvalidationPaths {
    pub normal: InvalidationPath,
    pub high: InvalidationPath,
}

impl TrackedInvalidationPaths {
    pub open spec fn clean_spec() -> Self {
        TrackedInvalidationPaths { normal: InvalidationPath::Clean, high: InvalidationPath::Clean }
    }

    /// The paths after an invalidation of rank `priority` that started at
    /// `source` in `version`: an invalidation of high rank is reported at both
    /// ranks, one of normal rank only at its own.
    pub open spec fn dirtied_spec(
        self,
        source: DiceKey,
        version: VersionNumber,
        priority: InvalidationSourcePriority,
    ) -> Self {
        let path = InvalidationPath::Invalidated { source, version };
        match priority {
            InvalidationSourcePriority::Normal => TrackedInvalidationPaths {
                normal: path,
                high: self.high,
            },
            InvalidationSourcePriority::High => TrackedInvalidationPaths {
                normal: path,
                high: path,
            },
        }
    }

    #[verifier::when_used_as_spec(clean_spec)]
    pub fn clean() -> (paths: Self)
        ensures
            paths == Self::clean_spec(),
    {
        TrackedInvalidationPaths { normal: InvalidationPath::Clean, high: InvalidationPath::Clean }
    }

    #[verifier::when_used_as_spec(dirtied_spec)]
    pub fn dirtied(
        self,
        source: DiceKey,
        version: VersionNumber,
        priority: InvalidationSourcePriority,
    ) -> (paths: Self)
        ensures
            paths == self.dirtied_spec(source, version, priority),
    {
        let path = InvalidationPath::Invalidated { source, version };
        match priority {
            InvalidationSourcePriority::Normal => TrackedInvalidationPaths {
                normal: path,
                high: self.high,
            },
            InvalidationSourcePriority::High => TrackedInvalidationPaths {
                normal: path,
                high: path,
            },
        }
    }
}

/// A value of the graph with the versions over which it is known to hold.
pub struct DiceComputedValue<K: Key> {
    pub value: Arc<K::Value>,
    pub valid: VersionRanges,
    pub invalidation_paths: TrackedInvalidationPaths,
}

impl<K: Key> DiceComputedValue<K> {
    pub fn new(
        value: Arc<K::Value>,
        valid: VersionRange,
        invalidation_paths: TrackedInvalidationPaths,
    ) -> (computed: Self)
        ensures
            computed.value == value,
            computed.valid == (VersionRanges { latest: valid, earlier: None }),
            computed.invalidation_paths == invalidation_paths,
    {
        DiceComputedValue { value, valid: VersionRanges::only(valid), invalidation_paths }
    }

    /// The value itself.
    pub fn value(&self) -> (value: &K::Value)
        ensures
            *value == *self.value,
    {
        &*self.value
    }

    /// The versions over which the value is known to hold.
    pub fn versions(&self) -> (valid: &VersionRanges)
        ensures
            *valid == self.valid,
    {
        &self.valid
    }

    /// A second handle on the same value.
    pub fn dupe(&self) -> (copy: Self)
        ensures
            copy == *self,
    {
        DiceComputedValue {
            value: dupe_arc(&self.value),
            valid: self.valid.dupe(),
            invalidation_paths: self.invalidation_paths,
        }
    }
}

/// Whether every value of `found` is known to hold at `v`.
pub open spec fn all_hold_at<K: Key>(found: Seq<DiceComputedValue<K>>, v: VersionNumber) -> bool {
    forall|i: int| 0 <= i < found.len() ==> (#[trigger] found[i]).valid.contains_spec(v)
}

/// Since when the value `previous` of a key can be taken again without
/// computing it, where `deps` is what it was computed from and `found` the
/// values that those keys have now, one for each.
///
/// It can be taken again if it was computed from something and none of that
/// has changed: each value that was read is known to hold at the version at
/// which the latest range of `previous` begins. That version is then the
/// answer. A value that was computed from nothing is computed again.
pub fn reusable_since<K: Key>(
    previous: &DiceComputedValue<K>,
    deps: &Vec<DiceKey>,
    found: &Vec<DiceComputedValue<K>>,
) -> (since: Option<VersionNumber>)
    ensures
        since == (if deps@.len() > 0 && found@.len() == deps@.len() && all_hold_at(
            found@,
            previous.valid.latest.begin,
        ) {
            Some(previous.valid.latest.begin)
        } else {
            None::<VersionNumber>
        }),
{
    let at = previous.valid.latest.begin;
    if deps.len() == 0 || found.len() != deps.len() {
        return None;
    }
    let mut i: usize = 0;
    while i < found.len()
        invariant
            i <= found@.len(),
            at == previous.valid.latest.begin,
            forall|j: int| 0 <= j < i ==> (#[trigger] found@[j]).valid.contains_spec(at),
        decreases found@.len() - i,
    {
        if !found[i].valid.contains(at) {
            assert(!found@[i as int].valid.contains_spec(at));
            return None;
        }
        i = i + 1;
    }
    Some(at)
}

} // verus!
