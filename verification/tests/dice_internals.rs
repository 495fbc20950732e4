use std::sync::Arc;

use buck2_engine::dice::cache::DiceTaskRef;
use buck2_engine::dice::graph::types::ValueReusable;
use buck2_engine::dice::graph::types::VersionedGraphKey;
use buck2_engine::dice::graph::types::VersionedGraphResult;
use buck2_engine::dice::internals::CoreState;
use buck2_engine::dice::key::DiceKey;
use buck2_engine::dice::key::InvalidationSourcePriority;
use buck2_engine::dice::key::Key;
use buck2_engine::dice::key::StorageType;
use buck2_engine::dice::task::CancellationReason;
use buck2_engine::dice::task::DiceTaskEvent;
use buck2_engine::dice::transaction::ChangeType;
use buck2_engine::dice::value::DiceComputedValue;
use buck2_engine::dice::value::TrackedInvalidationPaths;
use buck2_engine::dice::versions::VersionEpoch;
use buck2_engine::dice::versions::VersionNumber;
use buck2_engine::dice::versions::VersionRange;

#[derive(Clone, Debug, Eq, PartialEq, Hash)]
struct K;

impl Key for K {
    type Value = usize;

    fn storage_type_spec(&self) -> StorageType {
        StorageType::Normal
    }

    fn storage_type(&self) -> StorageType {
        StorageType::Normal
    }

    fn priority_spec(&self) -> InvalidationSourcePriority {
        InvalidationSourcePriority::Normal
    }

    fn invalidation_source_priority(&self) -> InvalidationSourcePriority {
        InvalidationSourcePriority::Normal
    }

    fn same_key(&self, other: &Self) -> bool {
        self == other
    }

    fn hash_spec(&self) -> u64 {
        self.hash_code()
    }

    fn hash_code(&self) -> u64 {
        0
    }

    fn equality_spec(_: &Self::Value, _: &Self::Value) -> bool {
        true
    }

    fn equality(_: &Self::Value, _: &Self::Value) -> bool {
        true
    }
}

#[test]
fn update_state_gets_next_version() {
    let mut core = CoreState::<K>::new();

    assert_eq!(
        core.update_state(vec![(
            DiceKey { index: 0 },
            ChangeType::Invalidate,
            InvalidationSourcePriority::Normal
        )]),
        VersionNumber::new(1)
    );

    assert_eq!(
        core.update_state(vec![(
            DiceKey { index: 1 },
            ChangeType::Invalidate,
            InvalidationSourcePriority::Normal
        )]),
        VersionNumber::new(2)
    );
}

#[test]
fn state_ctx_at_version() {
    let mut core = CoreState::<K>::new();
    let v = VersionNumber::new(0);

    let (epoch, ctx) = core.ctx_at_version(v);

    let (epoch1, ctx1) = core.ctx_at_version(v);
    assert!(ctx.ptr_eq(&ctx1));
    assert_eq!(epoch, epoch1);

    // if you drop one, there is still reference so getting the same version should give the
    // same instance of ctx
    core.drop_ctx_at_version(v);
    let (epoch2, ctx2) = core.ctx_at_version(v);
    assert!(ctx.ptr_eq(&ctx2));
    assert_eq!(epoch1, epoch2);

    // drop all references, should give a different ctx instance
    core.drop_ctx_at_version(v);
    core.drop_ctx_at_version(v);
    let (another_epoch, another) = core.ctx_at_version(v);
    assert!(!ctx.ptr_eq(&another));
    assert_ne!(another_epoch, epoch);
}

fn update(
    core: &mut CoreState<K>,
    epoch: VersionEpoch,
    version: VersionNumber,
) -> Result<DiceComputedValue<K>, CancellationReason> {
    core.update_computed(
        VersionedGraphKey::new(version, DiceKey { index: 0 }),
        epoch,
        StorageType::Normal,
        Arc::new(1),
        ValueReusable::EqualityBased,
        vec![],
        TrackedInvalidationPaths::clean(),
    )
}

#[test]
fn cancellation_reason() {
    let mut core = CoreState::<K>::new();
    let v: VersionNumber = VersionNumber::new(0);
    let (epoch, _ctx) = core.ctx_at_version(v);
    let res = update(&mut core, epoch, v);
    assert_eq!(res.err(), None);

    core.unstable_drop_everything();
    let res = update(&mut core, epoch, v);
    assert_eq!(res.err(), Some(CancellationReason::Rejected));

    core.drop_ctx_at_version(v);
    let res = update(&mut core, epoch, v);
    assert_eq!(res.err(), Some(CancellationReason::OutdatedEpoch));
}

fn computed(val: usize) -> DiceComputedValue<K> {
    DiceComputedValue::new(
        Arc::new(val),
        VersionRange::new(VersionNumber::new(0), None),
        TrackedInvalidationPaths::clean(),
    )
}

/// A task that ran to its end.
fn insert_completed_task(core: &mut CoreState<K>, epoch: VersionEpoch, key: DiceKey, val: usize) {
    assert!(core.task_event(epoch, key, DiceTaskEvent::Start));
    assert!(core.task_event(epoch, key, DiceTaskEvent::Finished(computed(val))));
}

/// A task that was asked to stop and did.
fn insert_finished_cancelling_task(core: &mut CoreState<K>, epoch: VersionEpoch, key: DiceKey) {
    assert!(core.task_event(epoch, key, DiceTaskEvent::Start));
    assert!(core.task_event(
        epoch,
        key,
        DiceTaskEvent::Cancel(CancellationReason::ByTest)
    ));
}

/// A task that sits in a critical section.
fn insert_task_in_critical_section(core: &mut CoreState<K>, epoch: VersionEpoch, key: DiceKey) {
    assert!(core.task_event(epoch, key, DiceTaskEvent::Start));
    assert!(core.task_event(epoch, key, DiceTaskEvent::EnterCriticalSection));
}

#[test]
fn state_tracks_pending_cancellation() {
    let mut core = CoreState::<K>::new();
    let v = VersionNumber::new(0);

    let (epoch, cache) = core.ctx_at_version(v);

    for index in 1..=7 {
        assert_eq!(core.spawn_task(&cache, DiceKey { index }), Some(true));
    }
    insert_completed_task(&mut core, epoch, DiceKey { index: 1 }, 1);
    insert_completed_task(&mut core, epoch, DiceKey { index: 2 }, 2);
    insert_finished_cancelling_task(&mut core, epoch, DiceKey { index: 3 });
    insert_finished_cancelling_task(&mut core, epoch, DiceKey { index: 4 });
    // two tasks that will leave their critical section, one that never does
    insert_task_in_critical_section(&mut core, epoch, DiceKey { index: 5 });
    insert_task_in_critical_section(&mut core, epoch, DiceKey { index: 6 });
    insert_task_in_critical_section(&mut core, epoch, DiceKey { index: 7 });

    assert_eq!(core.metrics().currently_active_key_count, 3);

    core.drop_ctx_at_version(v);

    assert_eq!(core.get_tasks_pending_cancellation().len(), 3);

    assert!(matches!(
        core.get_task(&cache, DiceKey { index: 999 }),
        DiceTaskRef::TransactionCancelled
    ));
    assert_eq!(core.spawn_task(&cache, DiceKey { index: 999 }), None);

    // let the cancellable tasks cancel
    assert!(core.task_event(epoch, DiceKey { index: 5 }, DiceTaskEvent::ExitCriticalSection));
    assert!(core.task_event(epoch, DiceKey { index: 6 }, DiceTaskEvent::ExitCriticalSection));

    let (epoch2, cache2) = core.ctx_at_version(v);
    assert_ne!(epoch, epoch2);

    assert_eq!(core.spawn_task(&cache2, DiceKey { index: 8 }), Some(true));
    insert_task_in_critical_section(&mut core, epoch2, DiceKey { index: 8 });

    core.drop_ctx_at_version(v);

    let observers = core.get_tasks_pending_cancellation();
    assert_eq!(observers.len(), 2);
    assert!(!core.has_terminated(&observers[0]));
    assert!(!core.has_terminated(&observers[1]));
    assert_eq!(observers[0].key, DiceKey { index: 7 });
    assert_eq!(observers[0].epoch, epoch);
    assert_eq!(observers[1].key, DiceKey { index: 8 });
    assert_eq!(observers[1].epoch, epoch2);

    // once a task has left its critical section it has ended, and the next scan drops it
    assert!(core.task_event(epoch2, DiceKey { index: 8 }, DiceTaskEvent::ExitCriticalSection));
    assert!(core.has_terminated(&observers[1]));
    assert!(!core.has_terminated(&observers[0]));
    assert_eq!(core.get_tasks_pending_cancellation().len(), 1);
    assert!(core.has_terminated(&observers[1]));
    // a task in a cache that is live
    let (epoch3, cache3) = core.ctx_at_version(v);
    assert_eq!(core.spawn_task(&cache3, DiceKey { index: 9 }), Some(true));
    let running = buck2_engine::dice::task::TerminationObserver { key: DiceKey { index: 9 }, epoch: epoch3 };
    assert!(!core.has_terminated(&running));
    assert!(core.task_event(epoch3, DiceKey { index: 9 }, DiceTaskEvent::Cancel(CancellationReason::ByTest)));
    assert!(core.has_terminated(&running));
}

#[test]
fn lookup_is_rejected_after_reset() {
    let mut core = CoreState::<K>::new();
    let v = VersionNumber::new(0);
    let key = VersionedGraphKey::new(v, DiceKey { index: 3 });
    let (epoch, _cache) = core.ctx_at_version(v);
    assert!(update_at(&mut core, epoch, key, 5).is_ok());
    assert!(matches!(core.lookup_key(key), VersionedGraphResult::Match(_)));

    let dropped = core.unstable_drop_everything();
    assert_eq!(dropped.key_count(), 1);
    assert_eq!(core.current_version(), VersionNumber::new(1));
    assert!(matches!(core.lookup_key(key), VersionedGraphResult::Rejected(_)));
    assert_eq!(core.metrics().key_count, 0);

    // a version that was issued after the reset is looked up in the graph
    let later = VersionedGraphKey::new(VersionNumber::new(1), DiceKey { index: 3 });
    assert!(matches!(core.lookup_key(later), VersionedGraphResult::Mismatch(_)));
}

fn update_at(
    core: &mut CoreState<K>,
    epoch: VersionEpoch,
    key: VersionedGraphKey,
    value: usize,
) -> Result<DiceComputedValue<K>, CancellationReason> {
    core.update_computed(
        key,
        epoch,
        StorageType::Normal,
        Arc::new(value),
        ValueReusable::EqualityBased,
        vec![],
        TrackedInvalidationPaths::clean(),
    )
}

#[test]
fn write_back_after_cache_was_recreated() {
    let mut core = CoreState::<K>::new();
    let v = VersionNumber::new(0);
    let key = VersionedGraphKey::new(v, DiceKey { index: 0 });

    let (old_epoch, _) = core.ctx_at_version(v);
    core.drop_ctx_at_version(v);
    let (new_epoch, _) = core.ctx_at_version(v);

    assert_eq!(
        update_at(&mut core, old_epoch, key, 1).err(),
        Some(CancellationReason::OutdatedEpoch)
    );
    assert!(matches!(core.lookup_key(key), VersionedGraphResult::Mismatch(_)));
    let written = update_at(&mut core, new_epoch, key, 1).ok().unwrap();
    assert_eq!(*written.value(), 1);
    assert_eq!(written.versions().latest(), VersionRange::new(v, None));
}

#[test]
fn empty_transaction_keeps_the_version() {
    let mut core = CoreState::<K>::new();
    assert_eq!(core.update_state(vec![]), VersionNumber::new(0));
    assert_eq!(
        core.update_state(vec![(
            DiceKey { index: 0 },
            ChangeType::Invalidate,
            InvalidationSourcePriority::Normal
        )]),
        VersionNumber::new(1)
    );
    // the key is dirty already: nothing changes, no version is issued
    assert_eq!(
        core.update_state(vec![(
            DiceKey { index: 0 },
            ChangeType::Invalidate,
            InvalidationSourcePriority::Normal
        )]),
        VersionNumber::new(1)
    );
    assert_eq!(core.current_version(), VersionNumber::new(1));
}

#[test]
fn metrics_count_views_and_keys() {
    let mut core = CoreState::<K>::new();
    let v0 = VersionNumber::new(0);
    let (epoch, cache) = core.ctx_at_version(v0);
    core.ctx_at_version(v0);
    assert_eq!(core.update_state(vec![(
        DiceKey { index: 4 },
        ChangeType::UpdateValue(Arc::new(7), StorageType::Injected),
        InvalidationSourcePriority::Normal
    )]), VersionNumber::new(1));
    core.ctx_at_version(VersionNumber::new(1));
    assert_eq!(core.spawn_task(&cache, DiceKey { index: 4 }), Some(true));
    assert_eq!(core.spawn_task(&cache, DiceKey { index: 4 }), Some(false));
    assert!(core.task_event(epoch, DiceKey { index: 4 }, DiceTaskEvent::Start));

    let metrics = core.metrics();
    assert_eq!(metrics.key_count, 1);
    assert_eq!(metrics.currently_active_key_count, 1);
    assert_eq!(metrics.active_transaction_count, 3);
}
