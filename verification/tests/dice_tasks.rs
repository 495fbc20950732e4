use std::sync::Arc;

use buck2_engine::dice::cache::retain_pending;
use buck2_engine::dice::cache::DiceTaskRef;
use buck2_engine::dice::cache::SharedCache;
use buck2_engine::dice::key::DiceKey;
use buck2_engine::dice::key::InvalidationSourcePriority;
use buck2_engine::dice::key::Key;
use buck2_engine::dice::key::ParentKey;
use buck2_engine::dice::key::StorageType;
use buck2_engine::dice::task::CancellationReason;
use buck2_engine::dice::task::DicePromise;
use buck2_engine::dice::task::DiceTask;
use buck2_engine::dice::task::DiceTaskEvent;
use buck2_engine::dice::task::DiceTaskState;
use buck2_engine::dice::value::DiceComputedValue;
use buck2_engine::dice::value::TrackedInvalidationPaths;
use buck2_engine::dice::version_tracker::VersionTracker;
use buck2_engine::dice::versions::VersionEpoch;
use buck2_engine::dice::versions::VersionNumber;
use buck2_engine::dice::versions::VersionRange;

#[derive(Clone, PartialEq, Eq, Hash, Debug)]
struct K;

impl Key for K {
    type Value = u8;

    fn storage_type_spec(&self) -> StorageType {
        StorageType::Normal
    }

    fn storage_type(&self) -> StorageType {
        StorageType::Normal
    }

    fn priority_spec(&self) -> InvalidationSourcePriority {
        InvalidationSourcePriority::Normal
    }

    fn invalidation_source_priority(&self) -> InvalidationSourcePriority {
        InvalidationSourcePriority::Normal
    }

    fn same_key(&self, other: &Self) -> bool {
        self == other
    }

    fn hash_spec(&self) -> u64 {
        self.hash_code()
    }

    fn hash_code(&self) -> u64 {
        0
    }

    fn equality_spec(x: &Self::Value, y: &Self::Value) -> bool {
        x == y
    }

    fn equality(x: &Self::Value, y: &Self::Value) -> bool {
        x == y
    }
}

fn task() -> DiceTask<K> {
    DiceTask::new(DiceKey { index: 1 }, VersionEpoch(4))
}

fn value(v: u8) -> DiceComputedValue<K> {
    DiceComputedValue::new(
        Arc::new(v),
        VersionRange::new(VersionNumber::new(0), None),
        TrackedInvalidationPaths::clean(),
    )
}

fn state(task: &DiceTask<K>) -> &'static str {
    match &task.state {
        DiceTaskState::Pending => "pending",
        DiceTaskState::Running => "running",
        DiceTaskState::Finished(_) => "finished",
        DiceTaskState::Cancelled(_) => "cancelled",
    }
}

#[test]
fn task_runs_to_its_end() {
    let mut t = task();
    assert_eq!(t.key(), DiceKey { index: 1 });
    assert_eq!(state(&t), "pending");
    assert!(t.is_pending());
    assert!(!t.is_finished());
    // nothing but a start or a cancel fits a task that has not started
    assert!(!t.finished(value(1)));
    assert!(!t.enter_critical_section());
    assert!(!t.exit_critical_section());
    assert!(t.start());
    assert!(!t.start());
    assert_eq!(state(&t), "running");
    assert!(t.is_pending());
    assert!(matches!(t.depended_on_by(ParentKey::Root), Ok(DicePromise::Pending)));
    assert!(t.finished(value(7)));
    assert_eq!(state(&t), "finished");
    assert!(!t.is_pending());
    assert!(t.is_finished());
    assert!(matches!(
        t.depended_on_by(ParentKey::Root),
        Ok(DicePromise::Ready(v)) if *v.value() == 7
    ));
    // a task that has ended stays as it is
    t.cancel(CancellationReason::ByTest);
    assert!(!t.apply(DiceTaskEvent::Start));
    assert!(!t.apply(DiceTaskEvent::Finished(value(8))));
    assert!(!t.apply(DiceTaskEvent::Cancel(CancellationReason::ByTest)));
    assert!(matches!(
        t.depended_on_by(ParentKey::Root),
        Ok(DicePromise::Ready(v)) if *v.value() == 7
    ));
    let observer = t.await_termination();
    assert_eq!((observer.key, observer.epoch), (DiceKey { index: 1 }, VersionEpoch(4)));
}

#[test]
fn cancel_takes_effect_at_once_outside_critical_sections() {
    let mut pending = task();
    pending.cancel(CancellationReason::TransactionDropped);
    assert!(matches!(
        pending.state,
        DiceTaskState::Cancelled(CancellationReason::TransactionDropped)
    ));
    assert!(!pending.start());

    let mut running = task();
    running.start();
    running.cancel(CancellationReason::ByTest);
    assert!(matches!(running.state, DiceTaskState::Cancelled(CancellationReason::ByTest)));
    assert!(!running.is_pending());
    assert!(!running.is_finished());
    assert!(matches!(
        running.depended_on_by(ParentKey::Root),
        Err(CancellationReason::ByTest)
    ));
    assert!(!running.finished(value(1)));
}

#[test]
fn cancel_waits_for_the_critical_section() {
    let mut t = task();
    t.start();
    assert!(t.enter_critical_section());
    assert!(t.enter_critical_section());
    t.cancel(CancellationReason::TransactionDropped);
    // the second request does not replace the first
    t.cancel(CancellationReason::ByTest);
    assert_eq!(state(&t), "running");
    assert!(t.is_pending());
    assert_eq!(t.cancel_requested, Some(CancellationReason::TransactionDropped));
    assert!(t.exit_critical_section());
    assert_eq!(state(&t), "running");
    assert!(t.exit_critical_section());
    assert!(matches!(
        t.state,
        DiceTaskState::Cancelled(CancellationReason::TransactionDropped)
    ));
    assert_eq!(t.cancel_requested, None);
    assert!(!t.exit_critical_section());

    // a task that finishes inside its critical section is finished
    let mut t = task();
    t.start();
    t.enter_critical_section();
    t.cancel(CancellationReason::ByTest);
    assert!(t.finished(value(3)));
    assert!(t.is_finished());
    assert_eq!(t.critical_sections, 0);
}

#[test]
fn cache_has_one_task_per_key() {
    let mut cache = SharedCache::<K>::new(VersionEpoch(2));
    let a = DiceKey { index: 10 };
    let b = DiceKey { index: 20 };
    assert!(matches!(cache.get(a), DiceTaskRef::Vacant));
    assert!(cache.spawn(a));
    assert!(!cache.spawn(a));
    assert!(cache.spawn(b));
    assert_eq!(cache.tasks.len(), 2);
    assert_eq!(cache.handle().epoch, VersionEpoch(2));
    assert!(matches!(cache.get(a), DiceTaskRef::Occupied(t) if t.key() == a && t.epoch == VersionEpoch(2)));
    assert_eq!(cache.active_tasks_count(), 2);

    assert!(!cache.apply(DiceKey { index: 30 }, DiceTaskEvent::Start));
    assert!(!cache.apply(a, DiceTaskEvent::Finished(value(1))));
    assert!(cache.apply(a, DiceTaskEvent::Start));
    assert!(cache.apply(a, DiceTaskEvent::Finished(value(1))));
    assert_eq!(cache.active_tasks_count(), 1);
    assert!(cache.apply(b, DiceTaskEvent::Start));
    assert!(cache.apply(b, DiceTaskEvent::EnterCriticalSection));

    // the task that has ended is dropped with the cache, the other is asked to stop
    let cancelled = cache.cancel_pending_tasks();
    assert_eq!(cancelled.len(), 1);
    assert_eq!(cancelled[0].key(), b);
    assert!(cancelled[0].is_pending());
    assert_eq!(cancelled[0].cancel_requested, Some(CancellationReason::TransactionDropped));

    let mut tasks = cancelled;
    let mut done = task();
    done.cancel(CancellationReason::ByTest);
    tasks.push(done);
    tasks.push(task());
    let kept = retain_pending(tasks);
    assert_eq!(kept.len(), 2);
    assert_eq!(kept[0].key(), b);
    assert_eq!(kept[1].key(), DiceKey { index: 1 });
}

#[test]
fn tracker_counts_references() {
    let mut tracker = VersionTracker::<K>::new();
    let v0 = VersionNumber::new(0);
    let v5 = VersionNumber::new(5);
    assert_eq!(tracker.current(), v0);
    assert!(!tracker.has_references(v0));
    let (e0, c0) = tracker.at(v0);
    let (e5, c5) = tracker.at(v5);
    assert_eq!((e0, e5), (VersionEpoch(0), VersionEpoch(1)));
    assert!(!c0.ptr_eq(&c5));
    assert_eq!(tracker.at(v0).0, e0);
    assert!(tracker.is_relevant(v0, e0));
    assert!(!tracker.is_relevant(v0, e5));
    assert!(!tracker.is_relevant(VersionNumber::new(1), e0));
    assert!(tracker.has_cache(e5));
    assert!(tracker.cache(&c5).is_some());

    let active = tracker.currently_active();
    assert_eq!(active.len(), 2);
    assert_eq!((active[0].version, active[0].ref_count, active[0].active_tasks), (v0, 2, 0));
    assert_eq!((active[1].version, active[1].ref_count), (v5, 1));

    assert!(tracker.drop_at_version(v0).is_none());
    let evicted = tracker.drop_at_version(v0).unwrap_or_else(|| panic!("the last reference"));
    assert_eq!(evicted.epoch, e0);
    assert!(!tracker.has_references(v0));
    assert!(!tracker.has_cache(e0));
    assert!(tracker.cache(&c0).is_none());
    assert_eq!(tracker.spawn_task(&c0, DiceKey { index: 1 }), None);
    assert_eq!(tracker.apply_task_event(e0, DiceKey { index: 1 }, DiceTaskEvent::Start), None);
    assert_eq!(tracker.spawn_task(&c5, DiceKey { index: 1 }), Some(true));
    assert_eq!(
        tracker.apply_task_event(e5, DiceKey { index: 1 }, DiceTaskEvent::Start),
        Some(true)
    );
    assert_eq!(tracker.currently_active()[0].active_tasks, 1);

    // a new cache gets a new epoch
    assert_eq!(tracker.at(v0).0, VersionEpoch(2));
    let snapshot = tracker.introspect();
    assert_eq!((snapshot.current, snapshot.valid_from), (v0, v0));
    assert_eq!(snapshot.active.len(), 2);
}

#[test]
fn tracker_issues_versions_on_commit_only() {
    let mut tracker = VersionTracker::<K>::new();
    let pending = tracker.write();
    assert_eq!(pending.version(), VersionNumber::new(1));
    assert_eq!(pending.undo(), VersionNumber::new(0));
    assert_eq!(tracker.current(), VersionNumber::new(0));
    let pending = tracker.write();
    assert_eq!(pending.commit(), VersionNumber::new(1));
    assert_eq!(tracker.current(), VersionNumber::new(1));
    assert!(!tracker.should_reject(VersionNumber::new(0)));

    tracker.clear();
    assert_eq!(tracker.current(), VersionNumber::new(2));
    assert!(tracker.should_reject(VersionNumber::new(0)));
    assert!(tracker.should_reject(VersionNumber::new(1)));
    assert!(!tracker.should_reject(VersionNumber::new(2)));
    assert_eq!(tracker.write().commit(), VersionNumber::new(3));
}
