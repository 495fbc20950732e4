//! Issues versions and keeps count of who looks at which version.
//!
//! A new version is issued only when a write is committed. Each version that
//! somebody looks at has a shared cache, created with a fresh epoch when the
//! version is first asked for and evicted when its last reference is dropped.

use vstd::prelude::*;

use crate::dice::cache::SharedCache;
use crate::dice::cache::SharedCacheRef;
use crate::dice::cache::pending_pred;
use crate::dice::key::DiceKey;
use crate::dice::key::Key;
use crate::dice::task::CancellationReason;
use crate::dice::task::DiceTask;
use crate::dice::task::DiceTaskEvent;
use crate::dice::versions::VersionEpoch;
use crate::dice::versions::VersionNumber;

verus! {

/// What is kept for a version while somebody looks at it.
pub struct ActiveVersionData<K: Key> {
    pub version: VersionNumber,
    pub per_transaction_data: SharedCache<K>,
    pub ref_count: usize,
    pub version_epoch: VersionEpoch,
}

impl<K: Key> ActiveVersionData<K> {
    pub open spec fn wf(&self) -> bool {
        &&& self.ref_count >= 1
        &&& self.per_transaction_data.wf()
        &&& self.per_transaction_data.epoch == self.version_epoch
    }

    /// The same data with one more reference.
    pub open spec fn acquired(self) -> Self {
        ActiveVersionData { ref_count: (self.ref_count + 1) as usize, ..self }
    }

    /// The same data with one reference less.
    pub open spec fn released(self) -> Self {
        ActiveVersionData { ref_count: (self.ref_count - 1) as usize, ..self }
    }
}

/// A version that is looked at, for the metrics.
#[derive(Clone, Copy, Debug, PartialEq, Eq, Structural)]
pub struct ActiveVersion {
    pub version: VersionNumber,
    /// How many views hold the version.
    pub ref_count: usize,
    /// How many tasks of the version have not ended.
    pub active_tasks: usize,
}

/// A snapshot of the versions.
pub struct VersionIntrospectable {
    /// The latest committed version.
    pub current: VersionNumber,
    /// The first version that no reset has made obsolete.
    pub valid_from: VersionNumber,
    /// The versions that somebody looks at.
    pub active: Vec<ActiveVersion>,
}

/// The position of the data of `v` in `active`, or the length of `active`
/// where nobody looks at `v`.
pub open spec fn active_position<K: Key>(active: Seq<ActiveVersionData<K>>, v: VersionNumber) -> int
    decreases active.len(),
{
    if active.len() == 0 {
        0
    } else if active[0].version == v {
        0
    } else {
        1 + active_position(active.drop_first(), v)
    }
}

pub proof fn lemma_active_position<K: Key>(active: Seq<ActiveVersionData<K>>, v: VersionNumber)
    ensures
        0 <= active_position(active, v) <= active.len(),
        active_position(active, v) < active.len() ==> active[active_position(active, v)].version
            == v,
        forall|j: int| 0 <= j < active_position(active, v) ==> (#[trigger] active[j]).version != v,
    decreases active.len(),
{
    if active.len() == 0 {
    } else if active[0].version == v {
    } else {
        lemma_active_position(active.drop_first(), v);
        let p = active_position(active.drop_first(), v);
        assert forall|j: int| 0 <= j < 1 + p implies (#[trigger] active[j]).version != v by {
            if j > 0 {
                assert(active.drop_first()[j - 1] == active[j]);
            }
        }
    }
}

/// The position in `active` of the data whose cache has the epoch `epoch`,
/// or the length of `active` where no cache has it.
pub open spec fn epoch_position<K: Key>(active: Seq<ActiveVersionData<K>>, epoch: VersionEpoch) -> int
    decreases active.len(),
{
    if active.len() == 0 {
        0
    } else if active[0].version_epoch == epoch {
        0
    } else {
        1 + epoch_position(active.drop_first(), epoch)
    }
}

pub proof fn lemma_epoch_position<K: Key>(active: Seq<ActiveVersionData<K>>, epoch: VersionEpoch)
    ensures
        0 <= epoch_position(active, epoch) <= active.len(),
        epoch_position(active, epoch) < active.len() ==> active[epoch_position(
            active,
            epoch,
        )].version_epoch == epoch,
        forall|j: int|
            0 <= j < epoch_position(active, epoch) ==> (#[trigger] active[j]).version_epoch
                != epoch,
    decreases active.len(),
{
    if active.len() == 0 {
    } else if active[0].version_epoch == epoch {
    } else {
        lemma_epoch_position(active.drop_first(), epoch);
        let p = epoch_position(active.drop_first(), epoch);
        assert forall|j: int| 0 <= j < 1 + p implies (#[trigger] active[j]).version_epoch
            != epoch by {
            if j > 0 {
                assert(active.drop_first()[j - 1] == active[j]);
            }
        }
    }
}

/// What the metrics see of one version.
pub open spec fn summary_of<K: Key>(data: ActiveVersionData<K>) -> ActiveVersion {
    ActiveVersion {
        version: data.version,
        ref_count: data.ref_count,
        active_tasks: data.per_transaction_data.tasks@.filter(pending_pred()).len() as usize,
    }
}

pub struct VersionTracker<K: Key> {
    /// The latest committed version.
    pub current: VersionNumber,
    /// The versions that somebody looks at.
    pub active_versions: Vec<ActiveVersionData<K>>,
    /// The epoch that the next cache gets.
    pub next_epoch: u64,
    /// The first version that no reset has made obsolete.
    pub valid_versions_start: VersionNumber,
}

/// A version bump that is not decided yet: it is either committed, which
/// issues the next version, or undone, which leaves the version as it was.
pub struct VersionForWrites<'a, K: Key> {
    pub tracker: &'a mut VersionTracker<K>,
}

impl<K: Key> VersionTracker<K> {
    /// Each version is listed once with at least one reference, each cache has
    /// an epoch of its own that was issued before, and the versions that were
    /// reset away lie behind the current one.
    pub open spec fn wf(&self) -> bool {
        &&& self.valid_versions_start.0 <= self.current.0
        &&& forall|i: int|
            0 <= i < self.active_versions@.len() ==> (#[trigger] self.active_versions@[i]).wf()
        &&& forall|i: int|
            0 <= i < self.active_versions@.len() ==> (
            #[trigger] self.active_versions@[i]).version_epoch.0 < self.next_epoch
        &&& forall|i: int, j: int|
            0 <= i < j < self.active_versions@.len() ==> (
            #[trigger] self.active_versions@[i]).version != (
            #[trigger] self.active_versions@[j]).version
        &&& forall|i: int, j: int|
            0 <= i < j < self.active_versions@.len() ==> (
            #[trigger] self.active_versions@[i]).version_epoch != (
            #[trigger] self.active_versions@[j]).version_epoch
    }

    /// Whether somebody looks at `v`.
    pub open spec fn is_active(&self, v: VersionNumber) -> bool {
        active_position(self.active_versions@, v) < self.active_versions@.len()
    }

    /// What is kept for `v`; meaningful while somebody looks at `v`.
    pub open spec fn data(&self, v: VersionNumber) -> ActiveVersionData<K> {
        self.active_versions@[active_position(self.active_versions@, v)]
    }

    /// How many references to `v` are out.
    pub open spec fn ref_count(&self, v: VersionNumber) -> nat {
        if self.is_active(v) {
            self.data(v).ref_count as nat
        } else {
            0
        }
    }

    pub open spec fn is_relevant_spec(&self, v: VersionNumber, epoch: VersionEpoch) -> bool {
        self.is_active(v) && self.data(v).version_epoch == epoch
    }

    pub open spec fn should_reject_spec(&self, v: VersionNumber) -> bool {
        v.0 < self.valid_versions_start.0
    }

    /// Whether `after` is this tracker with one more reference to `v` handed
    /// out, under the epoch `epoch`: to the cache that `v` had, or else to a
    /// new, empty cache with the next epoch.
    pub open spec fn acquires(&self, after: &Self, v: VersionNumber, epoch: VersionEpoch) -> bool {
        &&& after.current == self.current
        &&& after.valid_versions_start == self.valid_versions_start
        &&& after.is_active(v)
        &&& after.ref_count(v) == self.ref_count(v) + 1
        &&& after.data(v).version_epoch == epoch
        &&& after.data(v).version == v
        &&& self.is_active(v) ==> {
            &&& epoch == self.data(v).version_epoch
            &&& after.next_epoch == self.next_epoch
            &&& after.active_versions@ == self.active_versions@.update(
                active_position(self.active_versions@, v),
                self.data(v).acquired(),
            )
        }
        &&& !self.is_active(v) ==> {
            &&& epoch == VersionEpoch(self.next_epoch)
            &&& after.next_epoch == self.next_epoch + 1
            &&& after.active_versions@.len() == self.active_versions@.len() + 1
            &&& after.active_versions@.drop_last() == self.active_versions@
            &&& after.active_versions@.last() == after.data(v)
            &&& after.data(v).ref_count == 1
            &&& after.data(v).per_transaction_data.tasks@.len() == 0
        }
    }

    /// The versions that are looked at after a reference to `v` was given
    /// back: `v` has one reference less, and is no longer listed if it was the
    /// last.
    pub open spec fn released(
        active: Seq<ActiveVersionData<K>>,
        v: VersionNumber,
    ) -> Seq<ActiveVersionData<K>> {
        let p = active_position(active, v);
        if active[p].ref_count > 1 {
            active.update(p, active[p].released())
        } else {
            active.remove(p)
        }
    }

    /// Whether `after` is this tracker with a reference to `v` given back.
    pub open spec fn releases(&self, after: &Self, v: VersionNumber) -> bool {
        &&& after.current == self.current
        &&& after.valid_versions_start == self.valid_versions_start
        &&& after.next_epoch == self.next_epoch
        &&& after.active_versions@ == Self::released(self.active_versions@, v)
        &&& after.ref_count(v) == self.ref_count(v) - 1
    }

    /// The cache that is evicted when a reference to `v` is given back.
    pub open spec fn evicts(&self, v: VersionNumber) -> Option<SharedCache<K>> {
        if self.ref_count(v) == 1 {
            Some(self.data(v).per_transaction_data)
        } else {
            None
        }
    }

    /// Whether `after` is this tracker with the tasks of the live cache of
    /// epoch `epoch` replaced by `tasks`, and nothing else changed.
    pub open spec fn with_tasks(
        &self,
        after: &Self,
        epoch: VersionEpoch,
        tasks: Seq<DiceTask<K>>,
    ) -> bool {
        let p = epoch_position(self.active_versions@, epoch);
        let data = self.active_versions@[p];
        &&& after.current == self.current
        &&& after.valid_versions_start == self.valid_versions_start
        &&& after.next_epoch == self.next_epoch
        &&& after.active_versions@.len() == self.active_versions@.len()
        &&& forall|i: int|
            0 <= i < self.active_versions@.len() && i != p ==> after.active_versions@[i]
                == self.active_versions@[i]
        &&& after.active_versions@[p].version == data.version
        &&& after.active_versions@[p].ref_count == data.ref_count
        &&& after.active_versions@[p].version_epoch == data.version_epoch
        &&& after.active_versions@[p].per_transaction_data.epoch == data.per_transaction_data.epoch
        &&& after.active_versions@[p].per_transaction_data.tasks@ == tasks
    }

    /// Whether a further reference can be handed out for any version: no
    /// count of references and no epoch would leave its range.
    pub open spec fn has_room(&self) -> bool {
        &&& self.next_epoch < u64::MAX
        &&& forall|i: int|
            0 <= i < self.active_versions@.len() ==> (#[trigger] self.active_versions@[i]).ref_count
                < usize::MAX
    }

    /// What becomes of a value that is written back for `v` by a computation
    /// that started with the cache of epoch `epoch`: thrown away because the
    /// cache of `v` is no longer that one, thrown away because a reset made
    /// `v` obsolete, or recorded.
    pub open spec fn write_back(&self, v: VersionNumber, epoch: VersionEpoch) -> Option<
        CancellationReason,
    > {
        if !self.is_relevant_spec(v, epoch) {
            Some(CancellationReason::OutdatedEpoch)
        } else if self.should_reject_spec(v) {
            Some(CancellationReason::Rejected)
        } else {
            None
        }
    }

    /// Whether the cache with the epoch `epoch` is the cache of a version that
    /// is looked at.
    pub open spec fn is_live(&self, epoch: VersionEpoch) -> bool {
        epoch_position(self.active_versions@, epoch) < self.active_versions@.len()
    }

    /// The cache with the epoch `epoch`; meaningful while it is live.
    pub open spec fn live_cache(&self, epoch: VersionEpoch) -> SharedCache<K> {
        self.active_versions@[epoch_position(
            self.active_versions@,
            epoch,
        )].per_transaction_data
    }

    pub fn new() -> (tracker: Self)
        ensures
            tracker.wf(),
            tracker.current.0 == 0,
            tracker.valid_versions_start.0 == 0,
            tracker.next_epoch == 0,
            tracker.active_versions@.len() == 0,
    {
        VersionTracker {
            current: VersionNumber::zero(),
            active_versions: Vec::new(),
            next_epoch: 0,
            valid_versions_start: VersionNumber::zero(),
        }
    }

    /// The latest committed version.
    pub fn current(&self) -> (v: VersionNumber)
        ensures
            v == self.current,
    {
        self.current
    }

    fn position(&self, v: VersionNumber) -> (p: usize)
        ensures
            p == active_position(self.active_versions@, v),
            p <= self.active_versions@.len(),
    {
        let mut i: usize = 0;
        while i < self.active_versions.len()
            invariant
                i <= self.active_versions@.len(),
                forall|j: int| 0 <= j < i ==> (#[trigger] self.active_versions@[j]).version != v,
            decreases self.active_versions@.len() - i,
        {
            if self.active_versions[i].version.0 == v.0 {
                proof {
                    lemma_active_position(self.active_versions@, v);
                }
                return i;
            }
            i = i + 1;
        }
        proof {
            lemma_active_position(self.active_versions@, v);
        }
        i
    }

    fn position_of_epoch(&self, epoch: VersionEpoch) -> (p: usize)
        ensures
            p == epoch_position(self.active_versions@, epoch),
            p <= self.active_versions@.len(),
    {
        let mut i: usize = 0;
        while i < self.active_versions.len()
            invariant
                i <= self.active_versions@.len(),
                forall|j: int|
                    0 <= j < i ==> (#[trigger] self.active_versions@[j]).version_epoch != epoch,
            decreases self.active_versions@.len() - i,
        {
            if self.active_versions[i].version_epoch.0 == epoch.0 {
                proof {
                    lemma_epoch_position(self.active_versions@, epoch);
                }
                return i;
            }
            i = i + 1;
        }
        proof {
            lemma_epoch_position(self.active_versions@, epoch);
        }
        i
    }

    /// Whether the cache with the epoch `epoch` is live.
    pub fn has_cache(&self, epoch: VersionEpoch) -> (live: bool)
        ensures
            live == self.is_live(epoch),
    {
        let p = self.position_of_epoch(epoch);
        p < self.active_versions.len()
    }

    /// The cache that `handle` names, unless it was evicted.
    pub fn cache(&self, handle: &SharedCacheRef) -> (cache: Option<&SharedCache<K>>)
        ensures
            self.is_live(handle.epoch) ==> cache == Some(&self.live_cache(handle.epoch)),
            !self.is_live(handle.epoch) ==> cache is None,
    {
        let p = self.position_of_epoch(handle.epoch);
        if p < self.active_versions.len() {
            Some(&self.active_versions[p].per_transaction_data)
        } else {
            None
        }
    }

    /// Starts a task for `key` in the cache that `handle` names, unless the
    /// cache has one. Says whether the caller became the one who drives the
    /// computation; says nothing, and changes nothing, where the cache was
    /// evicted.
    pub fn spawn_task(&mut self, handle: &SharedCacheRef, key: DiceKey) -> (is_driver: Option<bool>)
        requires
            old(self).wf(),
        ensures
            final(self).wf(),
            !old(self).is_live(handle.epoch) ==> is_driver is None && *final(self) == *old(self),
            old(self).is_live(handle.epoch) ==> {
                let cache = old(self).live_cache(handle.epoch);
                &&& is_driver == Some(!cache.has_task(key))
                &&& old(self).with_tasks(
                    final(self),
                    handle.epoch,
                    SharedCache::<K>::spawned(cache.tasks@, handle.epoch, key),
                )
            },
    {
        let p = self.position_of_epoch(handle.epoch);
        if p < self.active_versions.len() {
            let data = &mut self.active_versions[p];
            let is_driver = data.per_transaction_data.spawn(key);
            proof {
                lemma_epoch_position(old(self).active_versions@, handle.epoch);
            }
            Some(is_driver)
        } else {
            None
        }
    }

    /// Lets `event` happen to the task of `key` in the cache with the epoch
    /// `epoch`. Says whether the event fitted the state of the task; says
    /// nothing where no such cache is live. Nothing is changed unless the
    /// event fitted.
    pub fn apply_task_event(
        &mut self,
        epoch: VersionEpoch,
        key: DiceKey,
        event: DiceTaskEvent<K>,
    ) -> (accepted: Option<bool>)
        requires
            old(self).wf(),
        ensures
            final(self).wf(),
            !old(self).is_live(epoch) ==> accepted is None && *final(self) == *old(self),
            old(self).is_live(epoch) ==> {
                let cache = old(self).live_cache(epoch);
                &&& accepted == Some(cache.has_task(key) && cache.task(key).accepts(event))
                &&& old(self).with_tasks(
                    final(self),
                    epoch,
                    SharedCache::<K>::applied(cache.tasks@, key, event),
                )
            },
    {
        let p = self.position_of_epoch(epoch);
        if p < self.active_versions.len() {
            let data = &mut self.active_versions[p];
            let accepted = data.per_transaction_data.apply(key, event);
            proof {
                lemma_epoch_position(old(self).active_versions@, epoch);
            }
            Some(accepted)
        } else {
            None
        }
    }

    /// Whether somebody looks at `v`.
    pub fn has_references(&self, v: VersionNumber) -> (b: bool)
        ensures
            b == self.is_active(v),
    {
        let p = self.position(v);
        p < self.active_versions.len()
    }

    /// Hands out a reference to the shared cache of `v`, with its epoch. The
    /// cache is created, with an epoch that no cache had before, if nobody
    /// looks at `v`; else it is the cache that the others hold.
    pub fn at(&mut self, v: VersionNumber) -> (ctx: (VersionEpoch, SharedCacheRef))
        requires
            old(self).wf(),
            old(self).is_active(v) ==> old(self).ref_count(v) < usize::MAX,
            !old(self).is_active(v) ==> old(self).next_epoch < u64::MAX,
        ensures
            final(self).wf(),
            old(self).acquires(final(self), v, ctx.0),
            ctx.1.epoch == ctx.0,
    {
        let p = self.position(v);
        proof {
            lemma_active_position(self.active_versions@, v);
        }
        if p < self.active_versions.len() {
            let data = &mut self.active_versions[p];
            data.ref_count = data.ref_count + 1;
            let epoch = data.version_epoch;
            proof {
                assert(self.active_versions@ =~= old(self).active_versions@.update(
                    p as int,
                    old(self).data(v).acquired(),
                ));
                lemma_active_position(self.active_versions@, v);
                assert(self.active_versions@[p as int].version == v);
            }
            (epoch, SharedCacheRef { epoch })
        } else {
            let epoch = VersionEpoch(self.next_epoch);
            self.next_epoch = self.next_epoch + 1;
            self.active_versions.push(
                ActiveVersionData {
                    version: v,
                    per_transaction_data: SharedCache::new(epoch),
                    ref_count: 1,
                    version_epoch: epoch,
                },
            );
            proof {
                lemma_active_position(self.active_versions@, v);
                assert(self.active_versions@[p as int].version == v);
                assert(self.active_versions@.drop_last() =~= old(self).active_versions@);
            }
            (epoch, SharedCacheRef { epoch })
        }
    }

    /// Gives back a reference to `v`. With the last reference the shared cache
    /// of `v` is evicted and handed to the caller.
    pub fn drop_at_version(&mut self, v: VersionNumber) -> (evicted: Option<SharedCache<K>>)
        requires
            old(self).wf(),
            old(self).is_active(v),
        ensures
            final(self).wf(),
            old(self).releases(final(self), v),
            evicted == old(self).evicts(v),
            evicted is Some ==> !final(self).is_active(v),
            evicted matches Some(cache) ==> cache.wf(),
    {
        let p = self.position(v);
        proof {
            lemma_active_position(self.active_versions@, v);
        }
        if self.active_versions[p].ref_count > 1 {
            let data = &mut self.active_versions[p];
            data.ref_count = data.ref_count - 1;
            proof {
                assert(self.active_versions@ =~= old(self).active_versions@.update(
                    p as int,
                    old(self).data(v).released(),
                ));
                lemma_active_position(self.active_versions@, v);
                assert(self.active_versions@[p as int].version == v);
            }
            None
        } else {
            let data = self.active_versions.remove(p);
            proof {
                lemma_active_position(self.active_versions@, v);
                let q = active_position(self.active_versions@, v);
                if q < self.active_versions@.len() {
                    if q < p {
                        assert(self.active_versions@[q] == old(self).active_versions@[q]);
                    } else {
                        assert(self.active_versions@[q] == old(self).active_versions@[q + 1]);
                    }
                }
            }
            Some(data.per_transaction_data)
        }
    }

    /// Whether the cache that was created with `epoch` is still the cache of
    /// `v`.
    #[verifier::when_used_as_spec(is_relevant_spec)]
    pub fn is_relevant(&self, v: VersionNumber, epoch: VersionEpoch) -> (b: bool)
        ensures
            b == self.is_relevant_spec(v, epoch),
    {
        let p = self.position(v);
        if p < self.active_versions.len() {
            self.active_versions[p].version_epoch.0 == epoch.0
        } else {
            false
        }
    }

    /// Whether a reset of the graph has made `v` obsolete.
    #[verifier::when_used_as_spec(should_reject_spec)]
    pub fn should_reject(&self, v: VersionNumber) -> (b: bool)
        ensures
            b == self.should_reject_spec(v),
    {
        v.0 < self.valid_versions_start.0
    }

    /// Begins a version bump.
    pub fn write(&mut self) -> (pending: VersionForWrites<'_, K>)
        ensures
            *pending.tracker == *old(self),
            *final(self) == *final(pending.tracker),
    {
        VersionForWrites { tracker: self }
    }

    /// Makes every version issued so far obsolete: the current version moves
    /// on by one and becomes the first valid one. The versions that somebody
    /// looks at stay listed until their references are given back.
    pub fn clear(&mut self)
        requires
            old(self).wf(),
            old(self).current.0 < u64::MAX,
        ensures
            final(self).wf(),
            final(self).current.0 == old(self).current.0 + 1,
            final(self).valid_versions_start == final(self).current,
            final(self).active_versions == old(self).active_versions,
            final(self).next_epoch == old(self).next_epoch,
    {
        self.current.inc();
        self.valid_versions_start = self.current;
    }

    /// A snapshot of the versions for tools that show them.
    pub fn introspect(&self) -> (snapshot: VersionIntrospectable)
        requires
            self.wf(),
        ensures
            snapshot.current == self.current,
            snapshot.valid_from == self.valid_versions_start,
            snapshot.active@ == self.active_versions@.map_values(
                |data: ActiveVersionData<K>| summary_of(data),
            ),
    {
        VersionIntrospectable {
            current: self.current,
            valid_from: self.valid_versions_start,
            active: self.currently_active(),
        }
    }

    /// The versions that somebody looks at, in the order in which they were
    /// first asked for.
    pub fn currently_active(&self) -> (active: Vec<ActiveVersion>)
        requires
            self.wf(),
        ensures
            active@ == self.active_versions@.map_values(|data: ActiveVersionData<K>| summary_of(data)),
    {
        let mut active: Vec<ActiveVersion> = Vec::new();
        let mut i: usize = 0;
        while i < self.active_versions.len()
            invariant
                i <= self.active_versions@.len(),
                active@ == self.active_versions@.take(i as int).map_values(
                    |data: ActiveVersionData<K>| summary_of(data),
                ),
            decreases self.active_versions@.len() - i,
        {
            let data = &self.active_versions[i];
            let summary = ActiveVersion {
                version: data.version,
                ref_count: data.ref_count,
                active_tasks: data.per_transaction_data.active_tasks_count(),
            };
            active.push(summary);
            proof {
                assert(self.active_versions@.take(i + 1) =~= self.active_versions@.take(
                    i as int,
                ).push(self.active_versions@[i as int]));
                assert(active@ =~= self.active_versions@.take(i + 1).map_values(
                    |data: ActiveVersionData<K>| summary_of(data),
                ));
            }
            i = i + 1;
        }
        proof {
            assert(self.active_versions@.take(i as int) =~= self.active_versions@);
        }
        active
    }
}

impl<'a, K: Key> VersionForWrites<'a, K> {
    /// The version that a commit would issue.
    pub fn version(&self) -> (v: VersionNumber)
        requires
            old(self.tracker).current.0 < u64::MAX,
        ensures
            v.0 == old(self.tracker).current.0 + 1,
    {
        VersionNumber(self.tracker.current.0 + 1)
    }

    /// Issues the next version and makes it the current one.
    pub fn commit(self) -> (v: VersionNumber)
        requires
            old(self.tracker).wf(),
            old(self.tracker).current.0 < u64::MAX,
        ensures
            v.0 == old(self.tracker).current.0 + 1,
            final(self.tracker).wf(),
            final(self.tracker).current == v,
            final(self.tracker).active_versions == old(self.tracker).active_versions,
            final(self.tracker).next_epoch == old(self.tracker).next_epoch,
            final(self.tracker).valid_versions_start == old(self.tracker).valid_versions_start,
    {
        self.tracker.current.inc();
        self.tracker.current
    }

    /// Gives the bump up: the current version stays.
    pub fn undo(self) -> (v: VersionNumber)
        ensures
            v == old(self.tracker).current,
            *final(self.tracker) == *old(self.tracker),
    {
        self.tracker.current
    }
}

/// While a reference to a version is out, a further reference is to the same
/// shared cache: it has the epoch, and the tasks, of the cache that the
/// others hold.
pub proof fn lemma_cache_is_shared_while_referenced<K: Key>(
    before: VersionTracker<K>,
    after: VersionTracker<K>,
    v: VersionNumber,
    epoch: VersionEpoch,
)
    requires
        before.wf(),
        before.is_active(v),
        before.acquires(&after, v, epoch),
    ensures
        epoch == before.data(v).version_epoch,
        after.data(v).per_transaction_data == before.data(v).per_transaction_data,
        after.data(v).ref_count == before.data(v).ref_count + 1,
{
    lemma_active_position(before.active_versions@, v);
    lemma_active_position(after.active_versions@, v);
    let p = active_position(before.active_versions@, v);
    let q = active_position(after.active_versions@, v);
    assert(after.active_versions@[p].version == v);
    if q < p {
        assert(after.active_versions@[q] == before.active_versions@[q]);
    }
}

/// Once all references to a version were given back, the next reference is
/// to a new shared cache: its epoch is none that a cache had before, and it
/// holds no task.
pub proof fn lemma_cache_is_new_after_last_drop<K: Key>(
    first: VersionTracker<K>,
    dropped: VersionTracker<K>,
    again: VersionTracker<K>,
    v: VersionNumber,
    epoch: VersionEpoch,
)
    requires
        first.wf(),
        first.is_active(v),
        first.ref_count(v) == 1,
        first.releases(&dropped, v),
        dropped.acquires(&again, v, epoch),
    ensures
        !dropped.is_active(v),
        epoch != first.data(v).version_epoch,
        epoch.0 >= first.next_epoch,
        again.data(v).per_transaction_data.tasks@.len() == 0,
        again.ref_count(v) == 1,
{
    lemma_active_position(first.active_versions@, v);
    lemma_active_position(dropped.active_versions@, v);
    let p = active_position(first.active_versions@, v);
    let q = active_position(dropped.active_versions@, v);
    if q < dropped.active_versions@.len() {
        if q < p {
            assert(dropped.active_versions@[q] == first.active_versions@[q]);
        } else {
            assert(dropped.active_versions@[q] == first.active_versions@[q + 1]);
        }
    }
}

/// After a reset of the graph, what a computation writes back for a version
/// that was issued before the reset is thrown away: as rejected where the
/// computation started with the cache that the version still has, and as
/// outdated else.
pub proof fn lemma_reset_rejects_earlier_versions<K: Key>(
    before: VersionTracker<K>,
    after: VersionTracker<K>,
    v: VersionNumber,
    epoch: VersionEpoch,
)
    requires
        before.wf(),
        v.0 <= before.current.0,
        after.current.0 == before.current.0 + 1,
        after.valid_versions_start == after.current,
        after.active_versions == before.active_versions,
    ensures
        after.write_back(v, epoch) is Some,
        before.is_relevant_spec(v, epoch) ==> after.write_back(v, epoch) == Some(
            CancellationReason::Rejected,
        ),
        !before.is_relevant_spec(v, epoch) ==> after.write_back(v, epoch) == Some(
            CancellationReason::OutdatedEpoch,
        ),
{
}

/// After the shared cache of a version was dropped and created again, with
/// no reset of the graph, a computation that started with the earlier cache
/// writes back in vain, as outdated, and one that started with the new cache
/// writes back with success.
pub proof fn lemma_recreated_cache_outdates_epoch<K: Key>(
    first: VersionTracker<K>,
    dropped: VersionTracker<K>,
    again: VersionTracker<K>,
    v: VersionNumber,
    epoch: VersionEpoch,
)
    requires
        first.wf(),
        first.is_active(v),
        first.ref_count(v) == 1,
        first.releases(&dropped, v),
        dropped.acquires(&again, v, epoch),
        !again.should_reject_spec(v),
    ensures
        again.write_back(v, first.data(v).version_epoch) == Some(CancellationReason::OutdatedEpoch),
        again.write_back(v, epoch) is None,
{
    lemma_cache_is_new_after_last_drop(first, dropped, again, v, epoch);
}

} // verus!
