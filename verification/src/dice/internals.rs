//! The core state: the one owner of the versions and of the graph. Every
//! change of either goes through it, so that nobody sees them half changed.

use std::sync::Arc;

use vstd::prelude::*;

use crate::dice::cache::DiceTaskRef;
use crate::dice::cache::SharedCache;
use crate::dice::cache::SharedCacheRef;
use crate::dice::cache::cancelled_pending;
use crate::dice::cache::observer_of;
use crate::dice::cache::pending_pred;
use crate::dice::cache::retain_pending;
use crate::dice::cache::termination_observers;
use crate::dice::graph::history::NodeView;
use crate::dice::graph::history::entry_at;
use crate::dice::graph::model::equal_to_current;
use crate::dice::graph::model::equal_to_previous;
use crate::dice::graph::model::invalidated;
use crate::dice::graph::model::known_pred;
use crate::dice::graph::model::known_summary;
use crate::dice::graph::model::lookup;
use crate::dice::graph::model::node_of;
use crate::dice::graph::model::recorded_deps;
use crate::dice::graph::model::summaries;
use crate::dice::graph::model::updated;
use crate::dice::graph::storage::VersionedGraph;
use crate::dice::graph::storage::VersionedGraphIntrospectable;
use crate::dice::graph::types::RejectedReason;
use crate::dice::graph::types::ValueReusable;
use crate::dice::graph::types::VersionedGraphKey;
use crate::dice::graph::types::VersionedGraphResult;
use crate::dice::key::DiceKey;
use crate::dice::key::InvalidationSourcePriority;
use crate::dice::key::Key;
use crate::dice::key::StorageType;
use crate::dice::metrics::Metrics;
use crate::dice::task::CancellationReason;
use crate::dice::task::DiceTask;
use crate::dice::task::DiceTaskEvent;
use crate::dice::task::TerminationObserver;
use crate::dice::transaction::ChangeType;
use crate::dice::transaction::SharedLiveTransactionCtx;
use crate::dice::transaction::committed;
use crate::dice::value::DiceComputedValue;
use crate::dice::value::TrackedInvalidationPaths;
use crate::dice::version_tracker::ActiveVersionData;
use crate::dice::version_tracker::VersionIntrospectable;
use crate::dice::version_tracker::VersionTracker;
use crate::dice::version_tracker::lemma_epoch_position;
use crate::dice::version_tracker::summary_of;
use crate::dice::versions::VersionEpoch;
use crate::dice::versions::VersionNumber;

verus! {

/// The graph after the changes of a transaction were applied in their order
/// at version `v`, and whether one of them changed anything.
pub open spec fn changes_applied<K: Key>(
    graph: Seq<NodeView<K>>,
    updates: Seq<(DiceKey, ChangeType<K>, InvalidationSourcePriority)>,
    v: VersionNumber,
) -> (Seq<NodeView<K>>, bool)
    decreases updates.len(),
{
    if updates.len() == 0 {
        (graph, false)
    } else {
        let before = changes_applied(graph, updates.drop_last(), v);
        let key = VersionedGraphKey { v, k: updates.last().0 };
        let kind = updates.last().1.kind_spec();
        let after = invalidated(
            before.0,
            key,
            kind,
            updates.last().2,
            equal_to_current(before.0, key, kind),
        );
        (after.0, before.1 || after.1)
    }
}

/// Whether `task` is the task of `key` that was started in the cache of
/// epoch `epoch`.
pub open spec fn is_task_of<K: Key>(task: DiceTask<K>, key: DiceKey, epoch: VersionEpoch) -> bool {
    task.key == key && task.epoch == epoch
}

/// The position in `tasks` of the task of `key` that was started in the
/// cache of epoch `epoch`, or the length of `tasks` where there is none.
pub open spec fn waiting_position<K: Key>(
    tasks: Seq<DiceTask<K>>,
    key: DiceKey,
    epoch: VersionEpoch,
) -> int
    decreases tasks.len(),
{
    if tasks.len() == 0 {
        0
    } else if is_task_of(tasks[0], key, epoch) {
        0
    } else {
        1 + waiting_position(tasks.drop_first(), key, epoch)
    }
}

pub proof fn lemma_waiting_position<K: Key>(
    tasks: Seq<DiceTask<K>>,
    key: DiceKey,
    epoch: VersionEpoch,
)
    ensures
        0 <= waiting_position(tasks, key, epoch) <= tasks.len(),
        waiting_position(tasks, key, epoch) < tasks.len() ==> is_task_of(
            tasks[waiting_position(tasks, key, epoch)],
            key,
            epoch,
        ),
        forall|j: int|
            0 <= j < waiting_position(tasks, key, epoch) ==> !is_task_of(
                #[trigger] tasks[j],
                key,
                epoch,
            ),
    decreases tasks.len(),
{
    if tasks.len() == 0 {
    } else if is_task_of(tasks[0], key, epoch) {
    } else {
        lemma_waiting_position(tasks.drop_first(), key, epoch);
        let q = waiting_position(tasks.drop_first(), key, epoch);
        assert forall|j: int| 0 <= j < 1 + q implies !is_task_of(
            #[trigger] tasks[j],
            key,
            epoch,
        ) by {
            if j > 0 {
                assert(tasks.drop_first()[j - 1] == tasks[j]);
            }
        }
        if q < tasks.drop_first().len() {
            assert(tasks.drop_first()[q] == tasks[1 + q]);
        }
    }
}

/// The position of a task is the first at which its key and epoch stand.
pub proof fn lemma_waiting_position_is<K: Key>(
    tasks: Seq<DiceTask<K>>,
    key: DiceKey,
    epoch: VersionEpoch,
    p: int,
)
    requires
        0 <= p <= tasks.len(),
        forall|j: int| 0 <= j < p ==> !is_task_of(#[trigger] tasks[j], key, epoch),
        p < tasks.len() ==> is_task_of(tasks[p], key, epoch),
    ensures
        waiting_position(tasks, key, epoch) == p,
{
    lemma_waiting_position(tasks, key, epoch);
    let q = waiting_position(tasks, key, epoch);
    if q < p {
        assert(!is_task_of(tasks[q], key, epoch));
    } else if q > p {
        assert(!is_task_of(tasks[p], key, epoch));
    }
}

/// The tasks after `event` happened to the task of `key` that was started in
/// the cache of epoch `epoch`.
pub open spec fn event_applied<K: Key>(
    tasks: Seq<DiceTask<K>>,
    key: DiceKey,
    epoch: VersionEpoch,
    event: DiceTaskEvent<K>,
) -> Seq<DiceTask<K>> {
    let p = waiting_position(tasks, key, epoch);
    if p < tasks.len() {
        tasks.update(p, tasks[p].apply_spec(event))
    } else {
        tasks
    }
}

/// `n`, or `cap` if `n` is larger.
pub open spec fn capped(n: nat, cap: nat) -> nat {
    if n <= cap {
        n
    } else {
        cap
    }
}

/// How many views are out over all versions.
pub open spec fn total_ref_count<K: Key>(active: Seq<ActiveVersionData<K>>) -> nat
    decreases active.len(),
{
    if active.len() == 0 {
        0
    } else {
        total_ref_count(active.drop_last()) + active.last().ref_count as nat
    }
}

/// How many tasks have not ended over all versions.
pub open spec fn total_active_tasks<K: Key>(active: Seq<ActiveVersionData<K>>) -> nat
    decreases active.len(),
{
    if active.len() == 0 {
        0
    } else {
        total_active_tasks(active.drop_last()) + active.last().per_transaction_data.tasks@.filter(
            pending_pred(),
        ).len()
    }
}

/// Core state of the engine, holding the graph and the versions.
pub struct CoreState<K: Key> {
    pub version_tracker: VersionTracker<K>,
    pub graph: VersionedGraph<K>,
    /// Tasks of evicted caches that were asked to stop and had not ended when
    /// last looked at.
    pub pending_termination_tasks: Vec<DiceTask<K>>,
}

impl<K: Key> CoreState<K> {
    pub open spec fn wf(&self) -> bool {
        &&& self.version_tracker.wf()
        &&& self.graph.wf()
        &&& forall|i: int|
            0 <= i < self.pending_termination_tasks@.len() ==> (
            #[trigger] self.pending_termination_tasks@[i]).wf()
    }

    /// Whether the task that `observer` names is known and has not ended: in
    /// the cache that it was started in while that cache is live, else among
    /// the tasks whose end is waited for.
    pub open spec fn is_winding_down(&self, observer: TerminationObserver) -> bool {
        if self.version_tracker.is_live(observer.epoch) {
            let live = self.version_tracker.live_cache(observer.epoch);
            live.has_task(observer.key) && live.task(observer.key).is_pending_spec()
        } else {
            let p = waiting_position(
                self.pending_termination_tasks@,
                observer.key,
                observer.epoch,
            );
            p < self.pending_termination_tasks@.len()
                && self.pending_termination_tasks@[p].is_pending_spec()
        }
    }

    pub fn new() -> (core: Self)
        ensures
            core.wf(),
            core.version_tracker.current.0 == 0,
            core.version_tracker.valid_versions_start.0 == 0,
            core.version_tracker.next_epoch == 0,
            core.version_tracker.active_versions@.len() == 0,
            core.graph@.len() == 0,
            core.pending_termination_tasks@.len() == 0,
    {
        CoreState {
            version_tracker: VersionTracker::new(),
            graph: VersionedGraph::new(),
            pending_termination_tasks: Vec::new(),
        }
    }

    /// Applies the changes of a transaction in their order. If one of them
    /// changed anything, the next version is issued and the changes hold from
    /// it on; if none did, the version stays. Gives the version that is
    /// current afterwards.
    #[verifier::rlimit(50)]
    pub fn update_state(
        &mut self,
        updates: Vec<(DiceKey, ChangeType<K>, InvalidationSourcePriority)>,
    ) -> (v: VersionNumber)
        requires
            old(self).wf(),
            old(self).version_tracker.current.0 < u64::MAX,
        ensures
            final(self).wf(),
            ({
                let next = VersionNumber((old(self).version_tracker.current.0 + 1) as u64);
                let applied = changes_applied(old(self).graph@, updates@, next);
                &&& final(self).graph@ == applied.0
                &&& applied.1 ==> v == next
                &&& !applied.1 ==> v == old(self).version_tracker.current
            }),
            final(self).version_tracker.current == v,
            final(self).version_tracker.active_versions == old(self).version_tracker.active_versions,
            final(self).version_tracker.next_epoch == old(self).version_tracker.next_epoch,
            final(self).version_tracker.valid_versions_start == old(self).version_tracker.valid_versions_start,
            final(self).pending_termination_tasks == old(self).pending_termination_tasks,
    {
        let ghost graph = self.graph@;
        let ghost all = updates@;
        let version_update = self.version_tracker.write();
        let v = version_update.version();

        let mut changes_recorded = false;
        for update in it: updates
            invariant
                it.seq() == all,
                *version_update.tracker == old(self).version_tracker,
                after_borrow(self.version_tracker) == *final(version_update.tracker),
                self.pending_termination_tasks == old(self).pending_termination_tasks,
                old(self).wf(),
                old(self).version_tracker.current.0 < u64::MAX,
                v.0 == old(self).version_tracker.current.0 + 1,
                self.graph.wf(),
                (self.graph@, changes_recorded) == changes_applied(
                    graph,
                    all.take(it.index() as int),
                    v,
                ),
        {
            proof {
                let s = all.take(it.index() + 1);
                assert(s.drop_last() =~= all.take(it.index() as int));
                assert(s.last() == update);
            }
            let (key, change, invalidation_priority) = update;
            let changed = self.graph.invalidate(
                VersionedGraphKey::new(v, key),
                change.kind(),
                invalidation_priority,
            );
            changes_recorded = changes_recorded || changed;
        }
        proof {
            assert(all.take(all.len() as int) =~= all);
        }
        if changes_recorded {
            version_update.commit()
        } else {
            version_update.undo()
        }
    }

    /// Hands out a view onto `v`: a reference to its shared cache, with the
    /// epoch of that cache. While a reference to `v` is out, every call gives
    /// the same cache; once all were given back, the next call creates a new
    /// one.
    pub fn ctx_at_version(&mut self, v: VersionNumber) -> (ctx: (VersionEpoch, SharedCacheRef))
        requires
            old(self).wf(),
            old(self).version_tracker.is_active(v) ==> old(self).version_tracker.ref_count(v)
                < usize::MAX,
            !old(self).version_tracker.is_active(v) ==> old(self).version_tracker.next_epoch
                < u64::MAX,
        ensures
            final(self).wf(),
            old(self).version_tracker.acquires(&final(self).version_tracker, v, ctx.0),
            ctx.1.epoch == ctx.0,
            final(self).graph == old(self).graph,
            final(self).pending_termination_tasks == old(self).pending_termination_tasks,
    {
        self.version_tracker.at(v)
    }

    /// The latest committed version.
    pub fn current_version(&self) -> (v: VersionNumber)
        ensures
            v == self.version_tracker.current,
    {
        self.version_tracker.current()
    }

    /// Gives a view onto `v` back. With the last view the shared cache of `v`
    /// is evicted: the tasks in it that have not ended are asked to stop and
    /// join the list of tasks whose end is waited for, and what has ended
    /// meanwhile leaves that list.
    pub fn drop_ctx_at_version(&mut self, v: VersionNumber)
        requires
            old(self).wf(),
            old(self).version_tracker.is_active(v),
        ensures
            final(self).wf(),
            old(self).version_tracker.releases(&final(self).version_tracker, v),
            final(self).graph == old(self).graph,
            match old(self).version_tracker.evicts(v) {
                Some(cache) => final(self).pending_termination_tasks@ == old(self).pending_termination_tasks@.filter(pending_pred()) + cancelled_pending(
                    cache.tasks@,
                    CancellationReason::TransactionDropped,
                ),
                None => final(self).pending_termination_tasks == old(self).pending_termination_tasks,
            },
    {
        if let Some(evicted_cache) = self.version_tracker.drop_at_version(v) {
            let mut tasks: Vec<DiceTask<K>> = Vec::new();
            core::mem::swap(&mut self.pending_termination_tasks, &mut tasks);
            let mut kept = retain_pending(tasks);
            let mut cancelled = evicted_cache.cancel_pending_tasks();
            kept.append(&mut cancelled);
            self.pending_termination_tasks = kept;
        }
    }

    /// Looks up a key at a version: rejected if a reset has made the version
    /// obsolete, else what the graph has.
    pub fn lookup_key(&self, key: VersionedGraphKey) -> (result: VersionedGraphResult<K>)
        requires
            self.wf(),
        ensures
            self.version_tracker.should_reject_spec(key.v) ==> result == VersionedGraphResult::<
                K,
            >::Rejected(RejectedReason::RejectedDueToGraphClear),
            !self.version_tracker.should_reject_spec(key.v) ==> result == lookup(self.graph@, key),
    {
        if self.version_tracker.should_reject(key.v) {
            VersionedGraphResult::Rejected(RejectedReason::RejectedDueToGraphClear)
        } else {
            self.graph.get(key)
        }
    }

    /// The keys that were read for the value that a lookup of `key` reports,
    /// as the value of the key or as the value before. A requester that finds
    /// a mismatch looks at them to see whether the value before can be used
    /// again.
    pub fn lookup_deps(&self, key: VersionedGraphKey) -> (deps: Vec<DiceKey>)
        requires
            self.wf(),
        ensures
            deps@ == recorded_deps(self.graph@, key),
    {
        self.graph.deps_of(key)
    }

    /// Writes back what a computation produced. The value is thrown away, and
    /// nothing changes, if the cache of the version is no longer the one that
    /// the computation started with, or if a reset has made the version
    /// obsolete. Else the graph takes it, and the answer is the value that the
    /// key then has at the version:
    /// - where the key has a value at the version already, that value stays,
    ///   nothing is recorded, and the value that stays is the answer;
    /// - where the value continues the record before, that record keeps its
    ///   own value and gains the versions from this one on;
    /// - else the value is recorded in a record of its own.
    pub fn update_computed(
        &mut self,
        key: VersionedGraphKey,
        epoch: VersionEpoch,
        storage: StorageType,
        value: Arc<K::Value>,
        reusability: ValueReusable,
        deps: Vec<DiceKey>,
        invalidation_paths: TrackedInvalidationPaths,
    ) -> (result: Result<DiceComputedValue<K>, CancellationReason>)
        requires
            old(self).wf(),
        ensures
            final(self).wf(),
            final(self).version_tracker == old(self).version_tracker,
            final(self).pending_termination_tasks == old(self).pending_termination_tasks,
            match old(self).version_tracker.write_back(key.v, epoch) {
                Some(reason) => {
                    &&& result == Err::<DiceComputedValue<K>, CancellationReason>(reason)
                    &&& final(self).graph == old(self).graph
                },
                None => {
                    let recorded = updated(
                        old(self).graph@,
                        key,
                        value,
                        reusability,
                        equal_to_previous(old(self).graph@, key, value),
                        deps@,
                        storage,
                        invalidation_paths,
                    );
                    &&& result == Ok::<DiceComputedValue<K>, CancellationReason>(recorded.1)
                    &&& final(self).graph@ == recorded.0
                },
            },
    {
        if !self.version_tracker.is_relevant(key.v, epoch) {
            Err(CancellationReason::OutdatedEpoch)
        } else if self.version_tracker.should_reject(key.v) {
            Err(CancellationReason::Rejected)
        } else {
            Ok(self.graph.update(key, value, reusability, deps, storage, invalidation_paths).0)
        }
    }

    /// Drops from the list the tasks that have ended, and names the tasks that
    /// are still winding down, for somebody who has to wait for their end.
    pub fn get_tasks_pending_cancellation(&mut self) -> (observers: Vec<TerminationObserver>)
        requires
            old(self).wf(),
        ensures
            final(self).wf(),
            final(self).pending_termination_tasks@ == old(self).pending_termination_tasks@.filter(
                pending_pred(),
            ),
            observers@ == final(self).pending_termination_tasks@.map_values(observer_of::<K>()),
            final(self).version_tracker == old(self).version_tracker,
            final(self).graph == old(self).graph,
    {
        let mut tasks: Vec<DiceTask<K>> = Vec::new();
        core::mem::swap(&mut self.pending_termination_tasks, &mut tasks);
        self.pending_termination_tasks = retain_pending(tasks);
        termination_observers(&self.pending_termination_tasks)
    }

    /// Resets the graph: every version issued so far becomes obsolete, and the
    /// graph forgets all nodes. The nodes are handed to the caller, who can
    /// drop them where freeing a large graph holds nobody up.
    pub fn unstable_drop_everything(&mut self) -> (dropped: VersionedGraph<K>)
        requires
            old(self).wf(),
            old(self).version_tracker.current.0 < u64::MAX,
        ensures
            final(self).wf(),
            final(self).version_tracker.current.0 == old(self).version_tracker.current.0 + 1,
            final(self).version_tracker.valid_versions_start == final(self).version_tracker.current,
            final(self).version_tracker.active_versions == old(self).version_tracker.active_versions,
            final(self).version_tracker.next_epoch == old(self).version_tracker.next_epoch,
            final(self).graph@.len() == 0,
            dropped == old(self).graph,
            final(self).pending_termination_tasks == old(self).pending_termination_tasks,
    {
        self.version_tracker.clear();
        let mut nodes = VersionedGraph::new();
        core::mem::swap(&mut self.graph, &mut nodes);
        nodes
    }

    /// Looks into the cache that `cache` names for the task of `key`.
    pub fn get_task(&self, cache: &SharedCacheRef, key: DiceKey) -> (found: DiceTaskRef<'_, K>)
        requires
            self.wf(),
        ensures
            !self.version_tracker.is_live(cache.epoch) ==> found == DiceTaskRef::<
                K,
            >::TransactionCancelled,
            self.version_tracker.is_live(cache.epoch) ==> {
                let live = self.version_tracker.live_cache(cache.epoch);
                &&& live.has_task(key) ==> found == DiceTaskRef::Occupied(&live.task(key))
                &&& !live.has_task(key) ==> found == DiceTaskRef::<K>::Vacant
            },
    {
        proof {
            lemma_epoch_position(self.version_tracker.active_versions@, cache.epoch);
        }
        match self.version_tracker.cache(cache) {
            Some(live) => live.get(key),
            None => DiceTaskRef::TransactionCancelled,
        }
    }

    /// Starts a task for `key` in the cache that `cache` names, unless the
    /// cache has one: of all who ask for a key at a version, the first becomes
    /// the one who drives the computation, and the others attach to its task.
    /// Says whether the caller is the first; says nothing, and changes
    /// nothing, where the cache was evicted.
    pub fn spawn_task(&mut self, cache: &SharedCacheRef, key: DiceKey) -> (is_driver: Option<bool>)
        requires
            old(self).wf(),
        ensures
            final(self).wf(),
            final(self).graph == old(self).graph,
            final(self).pending_termination_tasks == old(self).pending_termination_tasks,
            !old(self).version_tracker.is_live(cache.epoch) ==> is_driver is None && final(self).version_tracker == old(self).version_tracker,
            old(self).version_tracker.is_live(cache.epoch) ==> {
                let live = old(self).version_tracker.live_cache(cache.epoch);
                &&& is_driver == Some(!live.has_task(key))
                &&& old(self).version_tracker.with_tasks(
                    &final(self).version_tracker,
                    cache.epoch,
                    SharedCache::<K>::spawned(live.tasks@, cache.epoch, key),
                )
            },
    {
        self.version_tracker.spawn_task(cache, key)
    }

    /// Lets `event` happen to the task of `key` that was started in the cache
    /// of epoch `epoch`: in that cache while it is live, else among the tasks
    /// whose end is waited for. Says whether there was such a task and the
    /// event fitted its state; if not, nothing is changed.
    #[verifier::rlimit(50)]
    pub fn task_event(
        &mut self,
        epoch: VersionEpoch,
        key: DiceKey,
        event: DiceTaskEvent<K>,
    ) -> (accepted: bool)
        requires
            old(self).wf(),
        ensures
            final(self).wf(),
            final(self).graph == old(self).graph,
            old(self).version_tracker.is_live(epoch) ==> {
                let live = old(self).version_tracker.live_cache(epoch);
                &&& accepted == (live.has_task(key) && live.task(key).accepts(event))
                &&& old(self).version_tracker.with_tasks(
                    &final(self).version_tracker,
                    epoch,
                    SharedCache::<K>::applied(live.tasks@, key, event),
                )
                &&& final(self).pending_termination_tasks == old(self).pending_termination_tasks
            },
            !old(self).version_tracker.is_live(epoch) ==> {
                let p = waiting_position(old(self).pending_termination_tasks@, key, epoch);
                &&& final(self).version_tracker == old(self).version_tracker
                &&& final(self).pending_termination_tasks@ == event_applied(
                    old(self).pending_termination_tasks@,
                    key,
                    epoch,
                    event,
                )
                &&& accepted == (p < old(self).pending_termination_tasks@.len() && old(self).pending_termination_tasks@[p].accepts(event))
            },
    {
        if self.version_tracker.has_cache(epoch) {
            match self.version_tracker.apply_task_event(epoch, key, event) {
                Some(accepted) => accepted,
                None => false,
            }
        } else {
            let mut i: usize = 0;
            while i < self.pending_termination_tasks.len() && (
            self.pending_termination_tasks[i].key.index != key.index
                || self.pending_termination_tasks[i].epoch.0 != epoch.0)
                invariant
                    i <= self.pending_termination_tasks@.len(),
                    *self == *old(self),
                    forall|j: int|
                        0 <= j < i ==> !is_task_of(
                            #[trigger] self.pending_termination_tasks@[j],
                            key,
                            epoch,
                        ),
                decreases self.pending_termination_tasks@.len() - i,
            {
                i = i + 1;
            }
            proof {
                lemma_waiting_position_is(self.pending_termination_tasks@, key, epoch, i as int);
            }
            if i < self.pending_termination_tasks.len() {
                let task = &mut self.pending_termination_tasks[i];
                let accepted = task.apply(event);
                proof {
                    assert(self.pending_termination_tasks@ =~= event_applied(
                        old(self).pending_termination_tasks@,
                        key,
                        epoch,
                        event,
                    ));
                }
                accepted
            } else {
                false
            }
        }
    }

    /// Snapshots of the graph and of the versions for tools that show them.
    pub fn introspection(&self) -> (snapshot: (VersionedGraphIntrospectable, VersionIntrospectable))
        requires
            self.wf(),
        ensures
            snapshot.0.nodes@ == summaries(self.graph@).filter(known_summary()),
            snapshot.1.current == self.version_tracker.current,
            snapshot.1.valid_from == self.version_tracker.valid_versions_start,
            snapshot.1.active@ == self.version_tracker.active_versions@.map_values(
                |data: ActiveVersionData<K>| summary_of(data),
            ),
    {
        let graph = self.graph.introspect();
        let version_data = self.version_tracker.introspect();

        (graph, version_data)
    }

    /// Whether the task that `observer` names has ended: it finished, or it
    /// was cancelled and has stopped. A task of which nothing is known any
    /// more has ended.
    pub fn has_terminated(&self, observer: &TerminationObserver) -> (ended: bool)
        requires
            self.wf(),
        ensures
            ended == !self.is_winding_down(*observer),
    {
        let handle = SharedCacheRef { epoch: observer.epoch };
        proof {
            lemma_epoch_position(self.version_tracker.active_versions@, observer.epoch);
        }
        match self.version_tracker.cache(&handle) {
            Some(live) => match live.get(observer.key) {
                DiceTaskRef::Occupied(task) => !task.is_pending(),
                _ => true,
            },
            None => {
                let mut i: usize = 0;
                while i < self.pending_termination_tasks.len() && (
                self.pending_termination_tasks[i].key.index != observer.key.index
                    || self.pending_termination_tasks[i].epoch.0 != observer.epoch.0)
                    invariant
                        i <= self.pending_termination_tasks@.len(),
                        forall|j: int|
                            0 <= j < i ==> !is_task_of(
                                #[trigger] self.pending_termination_tasks@[j],
                                observer.key,
                                observer.epoch,
                            ),
                    decreases self.pending_termination_tasks@.len() - i,
                {
                    i = i + 1;
                }
                proof {
                    lemma_waiting_position_is(
                        self.pending_termination_tasks@,
                        observer.key,
                        observer.epoch,
                        i as int,
                    );
                }
                if i < self.pending_termination_tasks.len() {
                    !self.pending_termination_tasks[i].is_pending()
                } else {
                    true
                }
            },
        }
    }

    /// The counters: how many keys the graph knows, how many tasks have not
    /// ended and how many views are out over all versions that are looked at.
    /// A sum that does not fit its counter stands at the largest value of the
    /// counter.
    #[verifier::rlimit(50)]
    pub fn metrics(&self) -> (metrics: Metrics)
        requires
            self.wf(),
        ensures
            metrics.key_count == self.graph@.filter(known_pred()).len(),
            metrics.currently_active_key_count == capped(
                total_active_tasks(self.version_tracker.active_versions@),
                usize::MAX as nat,
            ),
            metrics.active_transaction_count == capped(
                total_ref_count(self.version_tracker.active_versions@),
                u32::MAX as nat,
            ),
    {
        let mut currently_running_key_count: usize = 0;
        let mut active_transaction_count: u32 = 0;

        let currently_active = self.version_tracker.currently_active();
        let ghost all = self.version_tracker.active_versions@;
        let mut i: usize = 0;
        proof {
            assert(all.take(0) =~= Seq::<ActiveVersionData<K>>::empty());
        }
        while i < currently_active.len()
            invariant
                i <= currently_active@.len(),
                all == self.version_tracker.active_versions@,
                currently_active@ == all.map_values(|data: ActiveVersionData<K>| summary_of(data)),
                currently_running_key_count == capped(
                    total_active_tasks(all.take(i as int)),
                    usize::MAX as nat,
                ),
                active_transaction_count == capped(
                    total_ref_count(all.take(i as int)),
                    u32::MAX as nat,
                ),
            decreases currently_active@.len() - i,
        {
            let active = currently_active[i];
            proof {
                let s = all.take(i + 1);
                assert(s.drop_last() =~= all.take(i as int));
                assert(s.last() == all[i as int]);
                assert(active == summary_of(all[i as int]));
                all[i as int].per_transaction_data.tasks@.lemma_filter_len(pending_pred());
                assert(all[i as int].per_transaction_data.tasks.len() <= usize::MAX);
            }
            active_transaction_count = if active.ref_count >= (u32::MAX
                - active_transaction_count) as usize {
                u32::MAX
            } else {
                active_transaction_count + active.ref_count as u32
            };
            currently_running_key_count = if active.active_tasks >= usize::MAX
                - currently_running_key_count {
                usize::MAX
            } else {
                currently_running_key_count + active.active_tasks
            };
            i = i + 1;
        }
        proof {
            assert(all.take(i as int) =~= all);
        }
        Metrics {
            key_count: self.graph.key_count(),
            currently_active_key_count: currently_running_key_count,
            active_transaction_count,
        }
    }
}

/// A transaction moves the version on by exactly one if one of its changes
/// changed anything, and leaves the version as it was if none did; a
/// transaction without changes is of the second kind.
pub proof fn lemma_version_moves_by_effective_changes<K: Key>(
    before: CoreState<K>,
    changes: Seq<(DiceKey, ChangeType<K>, InvalidationSourcePriority)>,
    after: CoreState<K>,
    ctx: SharedLiveTransactionCtx,
)
    requires
        committed(before, changes, after, ctx),
    ensures
        ({
            let next = VersionNumber((before.version_tracker.current.0 + 1) as u64);
            let effective = changes_applied(before.graph@, changes, next).1;
            &&& effective ==> after.version_tracker.current.0 == before.version_tracker.current.0
                + 1
            &&& !effective ==> after.version_tracker.current == before.version_tracker.current
            &&& changes.len() == 0 ==> !effective
            &&& ctx.version == after.version_tracker.current
        }),
{
}

/// Early cutoff at a commit: a transaction that brings, for one key, a value
/// that is equal to the one that the key has at the next version changes
/// nothing. The version stays, the graph stays, and so every key, also one
/// that was computed from the key, has the value that it had: nothing is
/// dirtied and nothing is computed again.
pub proof fn lemma_equal_update_keeps_dependents<K: Key>(
    before: CoreState<K>,
    k: DiceKey,
    value: Arc<K::Value>,
    storage: StorageType,
    priority: InvalidationSourcePriority,
    after: CoreState<K>,
    ctx: SharedLiveTransactionCtx,
)
    requires
        committed(
            before,
            seq![(k, ChangeType::<K>::UpdateValue(value, storage), priority)],
            after,
            ctx,
        ),
        ({
            let next = VersionNumber((before.version_tracker.current.0 + 1) as u64);
            entry_at(node_of(before.graph@, k).history, next) matches Some(entry)
                && K::equality_spec(&*entry.value, &*value)
        }),
    ensures
        after.version_tracker.current == before.version_tracker.current,
        ctx.version == before.version_tracker.current,
        after.graph@ == before.graph@,
        forall|key: VersionedGraphKey| lookup(after.graph@, key) == lookup(before.graph@, key),
{
    let changes = seq![(k, ChangeType::<K>::UpdateValue(value, storage), priority)];
    let next = VersionNumber((before.version_tracker.current.0 + 1) as u64);
    assert(changes.drop_last() =~= Seq::empty());
    assert(changes_applied(before.graph@, changes.drop_last(), next) == (before.graph@, false));
    assert(changes.last() == (k, ChangeType::<K>::UpdateValue(value, storage), priority));
}

} // verus!
