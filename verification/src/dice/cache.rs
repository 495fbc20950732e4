//! The shared cache of one version: the tasks of the keys that were asked
//! for at that version.

use std::collections::HashMap;

use gazebo::prelude::SliceExt;
use vstd::prelude::*;

use crate::dice::key::DiceKey;
use crate::dice::key::Key;
use crate::dice::task::CancellationReason;
use crate::dice::task::DiceTask;
use crate::dice::task::DiceTaskEvent;
use crate::dice::task::TerminationObserver;
use crate::dice::versions::VersionEpoch;
use crate::seq_util::lemma_filter_empty;
use crate::seq_util::lemma_filter_from;
use crate::seq_util::lemma_filter_take_step;

verus! {

/// Picks the tasks that have not ended.
pub open spec fn pending_pred<K: Key>() -> spec_fn(DiceTask<K>) -> bool {
    |task: DiceTask<K>| task.is_pending_spec()
}

/// Asks a task to stop for the given reason.
pub open spec fn cancel_with<K: Key>(reason: CancellationReason) -> spec_fn(DiceTask<K>) -> DiceTask<
    K,
> {
    |task: DiceTask<K>| task.cancel_spec(reason)
}

/// The position of the task of `key` in `tasks`, or the length of `tasks`
/// where there is none.
pub open spec fn task_position<K: Key>(tasks: Seq<DiceTask<K>>, key: DiceKey) -> int
    decreases tasks.len(),
{
    if tasks.len() == 0 {
        0
    } else if tasks[0].key == key {
        0
    } else {
        1 + task_position(tasks.drop_first(), key)
    }
}

pub proof fn lemma_task_position<K: Key>(tasks: Seq<DiceTask<K>>, key: DiceKey)
    ensures
        0 <= task_position(tasks, key) <= tasks.len(),
        task_position(tasks, key) < tasks.len() ==> tasks[task_position(tasks, key)].key == key,
        forall|j: int| 0 <= j < task_position(tasks, key) ==> (#[trigger] tasks[j]).key != key,
    decreases tasks.len(),
{
    if tasks.len() == 0 {
    } else if tasks[0].key == key {
    } else {
        lemma_task_position(tasks.drop_first(), key);
        let p = task_position(tasks.drop_first(), key);
        assert forall|j: int| 0 <= j < 1 + p implies (#[trigger] tasks[j]).key != key by {
            if j > 0 {
                assert(tasks.drop_first()[j - 1] == tasks[j]);
            }
        }
    }
}

/// The position of a task is the first at which its key stands.
pub proof fn lemma_task_position_is<K: Key>(tasks: Seq<DiceTask<K>>, key: DiceKey, p: int)
    requires
        0 <= p <= tasks.len(),
        p < tasks.len() ==> tasks[p].key == key,
        forall|i: int, j: int|
            0 <= i < j < tasks.len() ==> (#[trigger] tasks[i]).key != (#[trigger] tasks[j]).key,
        p == tasks.len() ==> forall|j: int| 0 <= j < tasks.len() ==> (#[trigger] tasks[j]).key != key,
    ensures
        task_position(tasks, key) == p,
{
    lemma_task_position(tasks, key);
    let q = task_position(tasks, key);
    if q < p {
        if p < tasks.len() {
            assert(tasks[q].key != tasks[p].key);
        } else {
            assert(tasks[q].key != key);
        }
    } else if q > p {
        assert(tasks[p].key != key);
    }
}

/// The tasks of `all` that have not ended, each asked to stop for `reason`.
pub open spec fn cancelled_pending<K: Key>(
    all: Seq<DiceTask<K>>,
    reason: CancellationReason,
) -> Seq<DiceTask<K>> {
    all.filter(pending_pred()).map_values(cancel_with(reason))
}

/// Names a task for somebody who waits for its end.
pub open spec fn observer_of<K: Key>() -> spec_fn(DiceTask<K>) -> TerminationObserver {
    |task: DiceTask<K>| TerminationObserver { key: task.key, epoch: task.epoch }
}

/// Drops the tasks that have ended.
pub fn retain_pending<K: Key>(tasks: Vec<DiceTask<K>>) -> (kept: Vec<DiceTask<K>>)
    requires
        forall|i: int| 0 <= i < tasks@.len() ==> (#[trigger] tasks@[i]).wf(),
    ensures
        kept@ == tasks@.filter(pending_pred()),
        forall|i: int| 0 <= i < kept@.len() ==> (#[trigger] kept@[i]).wf(),
{
    let ghost all = tasks@;
    let mut kept: Vec<DiceTask<K>> = Vec::new();
    proof {
        lemma_filter_empty::<DiceTask<K>>(pending_pred());
        assert(all.take(0) =~= Seq::<DiceTask<K>>::empty());
    }
    for task in it: tasks
        invariant
            it.seq() == all,
            forall|i: int| 0 <= i < all.len() ==> (#[trigger] all[i]).wf(),
            kept@ == all.take(it.index() as int).filter(pending_pred()),
            forall|i: int| 0 <= i < kept@.len() ==> (#[trigger] kept@[i]).wf(),
    {
        proof {
            lemma_filter_take_step(all, pending_pred(), it.index() as int);
            assert(task == all[it.index() as int]);
        }
        if task.is_pending() {
            kept.push(task);
        }
    }
    proof {
        assert(all.take(all.len() as int) =~= all);
    }
    kept
}

/// `gazebo::prelude::SliceExt::map` with `DiceTask::await_termination`: the
/// results of the function on the items of the slice, in their order.
#[verifier::external_body]
pub(crate) fn termination_observers<K: Key>(tasks: &Vec<DiceTask<K>>) -> (observers: Vec<
    TerminationObserver,
>)
    ensures
        observers@ == tasks@.map_values(observer_of::<K>()),
{
    tasks.map(|task| task.await_termination())
}

/// What a look into the cache finds for a key.
pub enum DiceTaskRef<'a, K: Key> {
    /// There is a task for the key: a requester attaches to it.
    Occupied(&'a DiceTask<K>),
    /// There is no task for the key: the requester starts one.
    Vacant,
    /// The cache was evicted: nothing is computed at its version any more.
    TransactionCancelled,
}

/// Names a shared cache for a view that works with it. Two names are the
/// same exactly if they stand for the same cache.
#[derive(Clone, Copy, Debug, PartialEq, Eq, Structural, Hash)]
pub struct SharedCacheRef {
    pub epoch: VersionEpoch,
}

impl SharedCacheRef {
    /// Whether both names stand for one cache.
    pub fn ptr_eq(&self, other: &SharedCacheRef) -> (same: bool)
        ensures
            same == (self.epoch == other.epoch),
    {
        self.epoch.0 == other.epoch.0
    }
}

pub struct SharedCache<K: Key> {
    /// The epoch that the cache was created with; it tells the cache apart
    /// from every other cache.
    pub epoch: VersionEpoch,
    pub tasks: Vec<DiceTask<K>>,
    /// Where the task of each key stands in `tasks`.
    pub index: HashMap<u32, usize>,
}

impl<K: Key> SharedCache<K> {
    /// There is at most one task for a key, each task knows the cache it is
    /// in, and the index knows where the task of each key stands.
    pub open spec fn wf(&self) -> bool {
        &&& forall|i: int| 0 <= i < self.tasks@.len() ==> (#[trigger] self.tasks@[i]).wf()
        &&& forall|i: int| 0 <= i < self.tasks@.len() ==> (#[trigger] self.tasks@[i]).epoch == self.epoch
        &&& forall|i: int, j: int|
            0 <= i < j < self.tasks@.len() ==> (#[trigger] self.tasks@[i]).key != (
            #[trigger] self.tasks@[j]).key
        &&& forall|i: int|
            0 <= i < self.tasks@.len() ==> self.index@.contains_key(
                (#[trigger] self.tasks@[i]).key.index,
            ) && self.index@[self.tasks@[i].key.index] == i
        &&& forall|k: u32| #[trigger]
            self.index@.contains_key(k) ==> self.index@[k] < self.tasks@.len()
                && self.tasks@[self.index@[k] as int].key.index == k
    }

    pub open spec fn has_task(&self, key: DiceKey) -> bool {
        task_position(self.tasks@, key) < self.tasks@.len()
    }

    /// The task of `key`; meaningful where there is one.
    pub open spec fn task(&self, key: DiceKey) -> DiceTask<K> {
        self.tasks@[task_position(self.tasks@, key)]
    }

    /// The tasks after a new task for `key` was started, if there was none.
    pub open spec fn spawned(tasks: Seq<DiceTask<K>>, epoch: VersionEpoch, key: DiceKey) -> Seq<
        DiceTask<K>,
    > {
        if task_position(tasks, key) < tasks.len() {
            tasks
        } else {
            tasks.push(DiceTask::new_spec(key, epoch))
        }
    }

    /// The tasks after `event` happened to the task of `key`.
    pub open spec fn applied(tasks: Seq<DiceTask<K>>, key: DiceKey, event: DiceTaskEvent<K>) -> Seq<
        DiceTask<K>,
    > {
        let p = task_position(tasks, key);
        if p < tasks.len() {
            tasks.update(p, tasks[p].apply_spec(event))
        } else {
            tasks
        }
    }

    pub fn new(epoch: VersionEpoch) -> (cache: Self)
        ensures
            cache.wf(),
            cache.epoch == epoch,
            cache.tasks@ == Seq::<DiceTask<K>>::empty(),
    {
        SharedCache { epoch, tasks: Vec::new(), index: HashMap::new() }
    }

    /// The name under which views hold this cache.
    pub fn handle(&self) -> (handle: SharedCacheRef)
        ensures
            handle.epoch == self.epoch,
    {
        SharedCacheRef { epoch: self.epoch }
    }

    /// Where the task of `key` stands.
    fn position(&self, key: DiceKey) -> (p: usize)
        requires
            self.wf(),
        ensures
            p == task_position(self.tasks@, key),
            p <= self.tasks@.len(),
    {
        broadcast use vstd::std_specs::hash::group_hash_axioms;

        match self.index.get(&key.index) {
            Some(p) => {
                proof {
                    assert(self.index@.contains_key(key.index));
                    assert(self.tasks@[*p as int].key == key);
                    lemma_task_position_is(self.tasks@, key, *p as int);
                }
                *p
            },
            None => {
                proof {
                    assert forall|j: int| 0 <= j < self.tasks@.len() implies (
                    #[trigger] self.tasks@[j]).key != key by {
                        if self.tasks@[j].key == key {
                            assert(self.index@.contains_key(self.tasks@[j].key.index));
                        }
                    }
                    lemma_task_position_is(self.tasks@, key, self.tasks@.len() as int);
                }
                self.tasks.len()
            },
        }
    }

    /// Looks for the task of `key`.
    pub fn get(&self, key: DiceKey) -> (found: DiceTaskRef<'_, K>)
        requires
            self.wf(),
        ensures
            self.has_task(key) ==> found == DiceTaskRef::Occupied(&self.task(key)),
            !self.has_task(key) ==> found == DiceTaskRef::<K>::Vacant,
    {
        let p = self.position(key);
        if p < self.tasks.len() {
            DiceTaskRef::Occupied(&self.tasks[p])
        } else {
            DiceTaskRef::Vacant
        }
    }

    /// Starts a task for `key` unless there is one. Says whether the caller
    /// became the one who drives the computation.
    #[verifier::rlimit(50)]
    pub fn spawn(&mut self, key: DiceKey) -> (is_driver: bool)
        requires
            old(self).wf(),
        ensures
            final(self).wf(),
            final(self).epoch == old(self).epoch,
            final(self).tasks@ == Self::spawned(old(self).tasks@, old(self).epoch, key),
            is_driver == !old(self).has_task(key),
            final(self).has_task(key),
    {
        let p = self.position(key);
        proof {
            lemma_task_position(self.tasks@, key);
        }
        if p < self.tasks.len() {
            false
        } else {
            self.tasks.push(DiceTask::new(key, self.epoch));
            self.index.insert(key.index, p);
            proof {
                broadcast use vstd::std_specs::hash::group_hash_axioms;

                lemma_task_position(self.tasks@, key);
                assert(self.tasks@[p as int].key == key);
                assert forall|i: int| 0 <= i < self.tasks@.len() implies self.index@.contains_key(
                    (#[trigger] self.tasks@[i]).key.index,
                ) && self.index@[self.tasks@[i].key.index] == i by {
                    if i < p {
                        assert(self.tasks@[i] == old(self).tasks@[i]);
                    }
                }
                assert forall|k: u32| #[trigger] self.index@.contains_key(k) implies self.index@[k]
                    < self.tasks@.len() && self.tasks@[self.index@[k] as int].key.index == k by {
                    if k != key.index {
                        assert(old(self).index@.contains_key(k));
                        assert(self.tasks@[old(self).index@[k] as int] == old(
                            self,
                        ).tasks@[old(self).index@[k] as int]);
                    }
                }
            }
            true
        }
    }

    /// Lets `event` happen to the task of `key`. Says whether there was such a
    /// task and the event fitted its state; if not, nothing is changed.
    pub fn apply(&mut self, key: DiceKey, event: DiceTaskEvent<K>) -> (accepted: bool)
        requires
            old(self).wf(),
        ensures
            final(self).wf(),
            final(self).epoch == old(self).epoch,
            final(self).tasks@ == Self::applied(old(self).tasks@, key, event),
            accepted == (old(self).has_task(key) && old(self).task(key).accepts(event)),
            !accepted ==> final(self).tasks@ == old(self).tasks@,
    {
        let p = self.position(key);
        if p < self.tasks.len() {
            let task = &mut self.tasks[p];
            let accepted = task.apply(event);
            proof {
                assert(self.tasks@ =~= old(self).tasks@.update(
                    p as int,
                    old(self).tasks@[p as int].apply_spec(event),
                ));
                if !accepted {
                    assert(self.tasks@ =~= old(self).tasks@);
                }
            }
            accepted
        } else {
            false
        }
    }

    /// How many tasks have not ended.
    pub fn active_tasks_count(&self) -> (n: usize)
        ensures
            n == self.tasks@.filter(pending_pred()).len(),
    {
        let mut n: usize = 0;
        let mut i: usize = 0;
        proof {
            lemma_filter_empty::<DiceTask<K>>(pending_pred());
            assert(self.tasks@.take(0) =~= Seq::<DiceTask<K>>::empty());
        }
        while i < self.tasks.len()
            invariant
                i <= self.tasks@.len(),
                n == self.tasks@.take(i as int).filter(pending_pred()).len(),
                n <= i,
            decreases self.tasks@.len() - i,
        {
            proof {
                lemma_filter_take_step(self.tasks@, pending_pred(), i as int);
            }
            if self.tasks[i].is_pending() {
                n = n + 1;
            }
            i = i + 1;
        }
        proof {
            assert(self.tasks@.take(i as int) =~= self.tasks@);
        }
        n
    }

    /// Ends the cache: every task that has not ended is asked to stop because
    /// the transaction was dropped, and handed out. The tasks that had ended
    /// are dropped with the cache.
    #[verifier::rlimit(50)]
    pub fn cancel_pending_tasks(self) -> (cancelled: Vec<DiceTask<K>>)
        requires
            self.wf(),
        ensures
            cancelled@ == cancelled_pending(self.tasks@, CancellationReason::TransactionDropped),
            forall|i: int| 0 <= i < cancelled@.len() ==> (#[trigger] cancelled@[i]).wf(),
    {
        let ghost all = self.tasks@;
        let ghost f = cancel_with::<K>(CancellationReason::TransactionDropped);
        let mut cancelled: Vec<DiceTask<K>> = Vec::new();
        proof {
            lemma_filter_empty::<DiceTask<K>>(pending_pred());
            assert(all.take(0) =~= Seq::<DiceTask<K>>::empty());
            assert(cancelled@ =~= all.take(0).filter(pending_pred()).map_values(f));
        }
        for task in it: self.tasks
            invariant
                it.seq() == all,
                f == cancel_with::<K>(CancellationReason::TransactionDropped),
                forall|i: int| 0 <= i < all.len() ==> (#[trigger] all[i]).wf(),
                cancelled@ == all.take(it.index() as int).filter(pending_pred()).map_values(f),
                forall|i: int| 0 <= i < cancelled@.len() ==> (#[trigger] cancelled@[i]).wf(),
        {
            let mut task = task;
            proof {
                lemma_filter_take_step(all, pending_pred(), it.index() as int);
                assert(task == all[it.index() as int]);
            }
            if task.is_pending() {
                let ghost before = all.take(it.index() as int).filter(pending_pred());
                task.cancel(CancellationReason::TransactionDropped);
                cancelled.push(task);
                proof {
                    assert(before.push(all[it.index() as int]).map_values(f) =~= before.map_values(
                        f,
                    ).push(f(all[it.index() as int])));
                }
            }
        }
        proof {
            assert(all.take(all.len() as int) =~= all);
        }
        cancelled
    }
}

/// Whether `stopped` is a task of `tasks` that had not ended, asked to stop.
pub open spec fn is_stopped_task_of<K: Key>(
    tasks: Seq<DiceTask<K>>,
    reason: CancellationReason,
    stopped: DiceTask<K>,
) -> bool {
    exists|i: int|
        0 <= i < tasks.len() && (#[trigger] tasks[i]).is_pending_spec() && stopped
            == tasks[i].cancel_spec(reason)
}

/// When a cache is evicted, each of its tasks that has not ended is among
/// the tasks handed out, asked to stop; and nothing else is handed out.
pub proof fn lemma_evicted_tasks_wait<K: Key>(tasks: Seq<DiceTask<K>>, reason: CancellationReason)
    ensures
        forall|i: int|
            0 <= i < tasks.len() && (#[trigger] tasks[i]).is_pending_spec() ==> cancelled_pending(
                tasks,
                reason,
            ).contains(tasks[i].cancel_spec(reason)),
        forall|j: int|
            0 <= j < cancelled_pending(tasks, reason).len() ==> is_stopped_task_of(
                tasks,
                reason,
                #[trigger] cancelled_pending(tasks, reason)[j],
            ),
        cancelled_pending(tasks, reason).len() == tasks.filter(pending_pred()).len(),
{
    let kept = tasks.filter(pending_pred());
    let out = cancelled_pending(tasks, reason);
    broadcast use vstd::seq_lib::group_filter_ensures;

    assert forall|i: int| 0 <= i < tasks.len() && (#[trigger] tasks[i]).is_pending_spec() implies out.contains(
        tasks[i].cancel_spec(reason),
    ) by {
        assert(pending_pred::<K>()(tasks[i]));
        assert(kept.contains(tasks[i]));
        let j = choose|j: int| 0 <= j < kept.len() && kept[j] == tasks[i];
        assert(out[j] == tasks[i].cancel_spec(reason));
    }
    assert forall|j: int| 0 <= j < out.len() implies is_stopped_task_of(
        tasks,
        reason,
        #[trigger] out[j],
    ) by {
        assert(pending_pred::<K>()(kept[j]));
        lemma_filter_from(tasks, pending_pred(), j);
        let i = choose|i: int| 0 <= i < tasks.len() && tasks[i] == kept[j];
        assert(tasks[i].is_pending_spec());
    }
}

/// A scan of the tasks whose end is waited for drops exactly the tasks that
/// have ended: what stays has not ended, and what has not ended stays.
pub proof fn lemma_scan_prunes_ended<K: Key>(tasks: Seq<DiceTask<K>>)
    ensures
        forall|j: int|
            0 <= j < tasks.filter(pending_pred()).len() ==> (#[trigger] tasks.filter(
                pending_pred(),
            )[j]).is_pending_spec(),
        forall|i: int|
            0 <= i < tasks.len() && (#[trigger] tasks[i]).is_pending_spec() ==> tasks.filter(
                pending_pred(),
            ).contains(tasks[i]),
        forall|j: int|
            0 <= j < tasks.filter(pending_pred()).len() ==> tasks.contains(
                #[trigger] tasks.filter(pending_pred())[j],
            ),
{
    let kept = tasks.filter(pending_pred());
    broadcast use vstd::seq_lib::group_filter_ensures;

    assert forall|j: int| 0 <= j < kept.len() implies (#[trigger] kept[j]).is_pending_spec() by {
        assert(pending_pred::<K>()(kept[j]));
    }
    assert forall|i: int| 0 <= i < tasks.len() && (#[trigger] tasks[i]).is_pending_spec() implies kept.contains(
        tasks[i],
    ) by {
        assert(pending_pred::<K>()(tasks[i]));
    }
    assert forall|j: int| 0 <= j < kept.len() implies tasks.contains(#[trigger] kept[j]) by {
        lemma_filter_from(tasks, pending_pred(), j);
    }
}

/// All who ask for a key in one cache share one task: after the first has
/// asked there is a task for the key, and whoever asks then finds that task,
/// becomes no driver, and leaves the tasks as they are.
pub proof fn lemma_requesters_share_one_task<K: Key>(
    tasks: Seq<DiceTask<K>>,
    epoch: VersionEpoch,
    key: DiceKey,
)
    ensures
        ({
            let first = SharedCache::<K>::spawned(tasks, epoch, key);
            &&& task_position(first, key) < first.len()
            &&& first[task_position(first, key)].key == key
            &&& SharedCache::<K>::spawned(first, epoch, key) == first
            &&& task_position(tasks, key) < tasks.len() ==> first == tasks
        }),
{
    let first = SharedCache::<K>::spawned(tasks, epoch, key);
    lemma_task_position(tasks, key);
    lemma_task_position(first, key);
    if task_position(tasks, key) >= tasks.len() {
        assert(first[tasks.len() as int].key == key);
        if task_position(first, key) >= first.len() {
            assert(first[tasks.len() as int].key != key);
        }
    }
}

} // verus!
