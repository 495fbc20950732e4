use std::sync::Arc;

use buck2_engine::dice::error::DiceError;
use buck2_engine::dice::graph::types::ValueReusable;
use buck2_engine::dice::graph::types::VersionedGraphKey;
use buck2_engine::dice::graph::types::VersionedGraphResult;
use buck2_engine::dice::key::DiceKey;
use buck2_engine::dice::key::InvalidationSourcePriority;
use buck2_engine::dice::key::Key;
use buck2_engine::dice::key::ParentKey;
use buck2_engine::dice::key::StorageType;
use buck2_engine::dice::modern::DiceModern;
use buck2_engine::dice::cache::DiceTaskRef;
use buck2_engine::dice::task::DicePromise;
use buck2_engine::dice::task::DiceTaskEvent;
use buck2_engine::dice::transaction::BaseComputeCtx;
use buck2_engine::dice::transaction::ChangeType;
use buck2_engine::dice::value::reusable_since;
use buck2_engine::dice::value::DiceComputedValue;
use buck2_engine::dice::value::TrackedInvalidationPaths;
use buck2_engine::dice::versions::VersionNumber;
use buck2_engine::dice::versions::VersionRange;

#[derive(Clone, PartialEq, Eq, Hash, Debug)]
struct K(usize);

impl Key for K {
    type Value = usize;

    fn storage_type_spec(&self) -> StorageType {
        StorageType::Normal
    }

    fn storage_type(&self) -> StorageType {
        StorageType::Normal
    }

    fn priority_spec(&self) -> InvalidationSourcePriority {
        InvalidationSourcePriority::Normal
    }

    fn invalidation_source_priority(&self) -> InvalidationSourcePriority {
        InvalidationSourcePriority::Normal
    }

    fn same_key(&self, other: &Self) -> bool {
        self == other
    }

    fn hash_spec(&self) -> u64 {
        self.hash_code()
    }

    fn hash_code(&self) -> u64 {
        self.0 as u64
    }

    fn equality_spec(x: &Self::Value, y: &Self::Value) -> bool {
        Self::equality(x, y)
    }

    // two values are the same if they are the same but for their last digit
    fn equality(x: &Self::Value, y: &Self::Value) -> bool {
        x / 10 == y / 10
    }
}

#[derive(Clone, PartialEq, Eq, Hash, Debug)]
struct Injected(usize);

impl Key for Injected {
    type Value = usize;

    fn storage_type_spec(&self) -> StorageType {
        StorageType::Injected
    }

    fn storage_type(&self) -> StorageType {
        StorageType::Injected
    }

    fn priority_spec(&self) -> InvalidationSourcePriority {
        InvalidationSourcePriority::High
    }

    fn invalidation_source_priority(&self) -> InvalidationSourcePriority {
        InvalidationSourcePriority::High
    }

    fn same_key(&self, other: &Self) -> bool {
        self == other
    }

    fn hash_spec(&self) -> u64 {
        self.hash_code()
    }

    fn hash_code(&self) -> u64 {
        self.0 as u64
    }

    fn equality_spec(x: &Self::Value, y: &Self::Value) -> bool {
        x == y
    }

    fn equality(x: &Self::Value, y: &Self::Value) -> bool {
        x == y
    }
}

#[test]
fn changes_are_recorded() {
    let mut dice = DiceModern::<K>::new();
    let mut updater = dice.updater();

    updater.changed(&mut dice, vec![K(1), K(2)]).unwrap_or_else(|_| panic!("K(1), K(2)"));

    updater
        .changed_to(&mut dice, vec![(K(3), 3), (K(4), 4)])
        .unwrap_or_else(|_| panic!("K(3), K(4)"));

    assert!(matches!(
        updater.scheduled_change(&dice, &K(1)),
        Some((_, ChangeType::Invalidate, InvalidationSourcePriority::Normal))
    ));
    assert!(matches!(
        updater.scheduled_change(&dice, &K(2)),
        Some((_, ChangeType::Invalidate, InvalidationSourcePriority::Normal))
    ));

    assert!(matches!(
        updater.scheduled_change(&dice, &K(3)),
        Some((_, ChangeType::UpdateValue(x, _), _)) if **x == 3
    ));

    assert!(matches!(
        updater.scheduled_change(&dice, &K(4)),
        Some((_, ChangeType::UpdateValue(x, _), _)) if **x == 4
    ));

    assert!(updater.changed(&mut dice, vec![K(1)]).is_err());
}

#[test]
fn transaction_versions() {
    let mut dice = DiceModern::<K>::new();
    let mut updater = dice.updater();

    updater.changed(&mut dice, vec![K(1), K(2)]).unwrap_or_else(|_| panic!("K(1), K(2)"));

    let ctx = updater.existing_state(&mut dice);
    assert_eq!(ctx.get_version(), VersionNumber::new(0));

    let ctx = updater.commit(&mut dice);
    assert_eq!(ctx.get_version(), VersionNumber::new(1));
}

#[test]
fn duplicate_change_keeps_the_first() {
    let mut dice = DiceModern::<K>::new();
    let mut updater = dice.updater();

    assert!(updater.changed_to(&mut dice, vec![(K(1), 10)]).is_ok());
    let second = updater.changed(&mut dice, vec![K(7), K(1), K(8)]);
    match second {
        Err(DiceError::DuplicateChange(key)) => assert_eq!(key, K(1)),
        _ => panic!("a second change for a key has to fail"),
    }
    assert!(matches!(
        updater.changed_to(&mut dice, vec![(K(1), 11)]),
        Err(DiceError::DuplicateChange(_))
    ));
    // the first registration is still there, the key before the mistake was registered,
    // the key after it was not
    assert!(matches!(
        updater.scheduled_change(&dice, &K(1)),
        Some((DiceKey { index: 0 }, ChangeType::UpdateValue(x, StorageType::Normal), _)) if **x == 10
    ));
    assert!(matches!(
        updater.scheduled_change(&dice, &K(7)),
        Some((DiceKey { index: 1 }, ChangeType::Invalidate, _))
    ));
    assert!(updater.scheduled_change(&dice, &K(8)).is_none());
    assert_eq!(updater.scheduled_changes.changes.len(), 2);
}

fn write(
    dice: &mut DiceModern<K>,
    ctx: &BaseComputeCtx,
    key: DiceKey,
    value: usize,
    deps: Vec<DiceKey>,
    reusable: ValueReusable,
) -> DiceComputedValue<K> {
    dice.state
        .update_computed(
            VersionedGraphKey::new(ctx.get_version(), key),
            ctx.epoch,
            StorageType::Normal,
            Arc::new(value),
            reusable,
            deps,
            TrackedInvalidationPaths::clean(),
        )
        .unwrap_or_else(|reason| panic!("write back failed: {:?}", reason))
}

fn lookup(dice: &DiceModern<K>, v: u64, key: DiceKey) -> VersionedGraphResult<K> {
    dice.state.lookup_key(VersionedGraphKey::new(VersionNumber::new(v), key))
}

fn range(begin: u64, end: Option<u64>) -> VersionRange {
    VersionRange::new(VersionNumber::new(begin), end.map(VersionNumber::new))
}

#[test]
fn early_cutoff_keeps_dependents() {
    let mut dice = DiceModern::<K>::new();
    let mut updater = dice.updater();
    assert!(updater.changed(&mut dice, vec![K(1), K(2)]).is_ok());
    let ctx = updater.commit(&mut dice);
    assert_eq!(ctx.get_version(), VersionNumber::new(1));
    let k1 = dice.key_index.index(&K(1)).unwrap();
    let k2 = dice.key_index.index(&K(2)).unwrap();
    assert_eq!((k1, k2), (DiceKey { index: 0 }, DiceKey { index: 1 }));

    // K1 is computed, then K2, which reads K1
    assert!(matches!(lookup(&dice, 1, k1), VersionedGraphResult::Mismatch(m) if m.previous.is_none()));
    let x = write(&mut dice, &ctx, k1, 100, vec![], ValueReusable::EqualityBased);
    assert_eq!((*x.value(), x.versions().latest()), (100, range(1, None)));
    let y = write(&mut dice, &ctx, k2, 1000, vec![k1], ValueReusable::EqualityBased);
    assert_eq!((*y.value(), y.versions().latest()), (1000, range(1, None)));

    // K1 is set to a value that is equal to the one it has: nothing changes
    let mut updater = dice.updater();
    assert!(updater.changed_to(&mut dice, vec![(K(1), 101)]).is_ok());
    let ctx = updater.commit(&mut dice);
    assert_eq!(ctx.get_version(), VersionNumber::new(1));
    assert!(matches!(lookup(&dice, 1, k2), VersionedGraphResult::Match(v) if *v.value() == 1000));
    assert!(matches!(lookup(&dice, 1, k1), VersionedGraphResult::Match(v) if *v.value() == 100));

    // K1 is set to a value that differs: K2 has to be computed at the next version
    let mut updater = dice.updater();
    assert!(updater.changed_to(&mut dice, vec![(K(1), 200)]).is_ok());
    let ctx = updater.commit(&mut dice);
    assert_eq!(ctx.get_version(), VersionNumber::new(2));
    assert!(matches!(
        lookup(&dice, 2, k1),
        VersionedGraphResult::Match(v) if *v.value() == 200 && v.versions().latest() == range(2, None)
    ));
    assert!(matches!(
        lookup(&dice, 2, k2),
        VersionedGraphResult::Mismatch(m)
            if matches!(&m.previous, Some(v) if *v.value() == 1000 && v.versions().latest() == range(1, Some(2)))
    ));
    // at the version before, K2 still has its value
    assert!(matches!(lookup(&dice, 1, k2), VersionedGraphResult::Match(v) if *v.value() == 1000));
    let y = write(&mut dice, &ctx, k2, 2000, vec![k1], ValueReusable::EqualityBased);
    assert_eq!((*y.value(), y.versions().latest()), (2000, range(2, None)));

    // K1 is invalidated and computed again with an equal result: its record goes on,
    // and so does that of K2, whose dependencies did not change
    let mut updater = dice.updater();
    assert!(updater.changed(&mut dice, vec![K(1)]).is_ok());
    let ctx = updater.commit(&mut dice);
    assert_eq!(ctx.get_version(), VersionNumber::new(3));
    assert!(matches!(lookup(&dice, 3, k1), VersionedGraphResult::Mismatch(_)));
    assert!(matches!(lookup(&dice, 3, k2), VersionedGraphResult::Mismatch(_)));
    let x = write(&mut dice, &ctx, k1, 205, vec![], ValueReusable::EqualityBased);
    assert_eq!((*x.value(), x.versions().latest()), (200, range(2, None)));
    let y = write(
        &mut dice,
        &ctx,
        k2,
        2000,
        vec![k1],
        ValueReusable::VersionBased(VersionNumber::new(2)),
    );
    assert_eq!((*y.value(), y.versions().latest()), (2000, range(2, None)));
}

#[test]
fn equal_value_after_a_gap_keeps_dependents() {
    let mut dice = DiceModern::<K>::new();
    let mut updater = dice.updater();
    assert!(updater.changed(&mut dice, vec![K(1), K(2)]).is_ok());
    let ctx = updater.commit(&mut dice);
    let k1 = dice.key_index.index(&K(1)).unwrap();
    let k2 = dice.key_index.index(&K(2)).unwrap();
    write(&mut dice, &ctx, k1, 100, vec![], ValueReusable::EqualityBased);
    write(&mut dice, &ctx, k2, 1000, vec![k1], ValueReusable::EqualityBased);

    // K1 is invalidated at version 2, and another transaction makes version 3
    let mut updater = dice.updater();
    assert!(updater.changed(&mut dice, vec![K(1)]).is_ok());
    assert_eq!(updater.commit(&mut dice).get_version(), VersionNumber::new(2));
    let mut updater = dice.updater();
    assert!(updater.changed_to(&mut dice, vec![(K(3), 5)]).is_ok());
    let ctx = updater.commit(&mut dice);
    assert_eq!(ctx.get_version(), VersionNumber::new(3));

    // K1 is first computed again at version 3, with an equal result: its record gains the
    // versions from 3 on, and version 2 stays outside
    let before = dice.state.introspection().0.nodes[0].records;
    let x = write(&mut dice, &ctx, k1, 101, vec![], ValueReusable::EqualityBased);
    assert_eq!((*x.value(), x.versions().latest()), (100, range(3, None)));
    assert_eq!(x.versions().count(), 2);
    assert!(x.versions().contains(VersionNumber::new(1)));
    assert!(!x.versions().contains(VersionNumber::new(2)));
    assert!(x.versions().contains(VersionNumber::new(3)));
    assert_eq!(dice.state.introspection().0.nodes[0].records, before);

    // so K2, which read K1 at version 1, is taken again and not computed
    let previous = match lookup(&dice, 3, k2) {
        VersionedGraphResult::Mismatch(m) => m.previous.unwrap_or_else(|| panic!("K2 had a value")),
        _ => panic!("K2 was reached by the invalidation"),
    };
    let deps = dice.state.lookup_deps(VersionedGraphKey::new(VersionNumber::new(3), k2));
    assert_eq!(deps, vec![k1]);
    let since = reusable_since(&previous, &deps, &vec![x]);
    assert_eq!(since, Some(VersionNumber::new(1)));
    let y = write(&mut dice, &ctx, k2, 0, deps, ValueReusable::VersionBased(VersionNumber::new(1)));
    assert_eq!((*y.value(), y.versions().latest()), (1000, range(3, None)));
    assert!(y.versions().contains(VersionNumber::new(1)));
    assert!(matches!(lookup(&dice, 3, k2), VersionedGraphResult::Match(v) if *v.value() == 1000));
}

#[test]
fn concurrent_requesters_share_one_task() {
    let mut dice = DiceModern::<K>::new();
    let updater = dice.updater();
    let first = updater.existing_state(&mut dice);
    let second = updater.existing_state(&mut dice);
    assert!(first.cache.ptr_eq(&second.cache));
    let key = DiceKey { index: 0 };

    // the first requester finds no task and becomes the one who computes
    assert!(matches!(dice.state.get_task(&first.cache, key), DiceTaskRef::Vacant));
    assert_eq!(dice.state.spawn_task(&first.cache, key), Some(true));
    assert!(dice.state.task_event(first.epoch, key, DiceTaskEvent::Start));

    // the second requester finds the task running and attaches to it
    assert_eq!(dice.state.spawn_task(&second.cache, key), Some(false));
    match dice.state.get_task(&second.cache, key) {
        DiceTaskRef::Occupied(task) => {
            assert!(task.is_pending());
            assert!(matches!(
                task.depended_on_by(ParentKey::Root),
                Ok(DicePromise::Pending)
            ));
        }
        _ => panic!("the task is in the cache"),
    }
    // a second start is refused: the computation runs once
    assert!(!dice.state.task_event(second.epoch, key, DiceTaskEvent::Start));

    let value = write(&mut dice, &first, key, 42, vec![], ValueReusable::EqualityBased);
    assert!(dice.state.task_event(first.epoch, key, DiceTaskEvent::Finished(value)));
    assert!(!dice.state.task_event(
        first.epoch,
        key,
        DiceTaskEvent::Finished(DiceComputedValue::new(
            Arc::new(43),
            range(0, None),
            TrackedInvalidationPaths::clean()
        ))
    ));

    for ctx in [&first, &second] {
        match dice.state.get_task(&ctx.cache, key) {
            DiceTaskRef::Occupied(task) => {
                assert!(task.is_finished());
                match task.depended_on_by(ParentKey::Parent(DiceKey { index: 9 })) {
                    Ok(DicePromise::Ready(v)) => {
                        assert_eq!(*v.value(), 42);
                        assert_eq!(v.versions().latest(), range(0, None));
                    }
                    _ => panic!("the value is there"),
                }
            }
            _ => panic!("the task is in the cache"),
        }
    }
    first.release(&mut dice);
    second.release(&mut dice);
    assert!(dice.state.get_tasks_pending_cancellation().is_empty());
}

#[test]
fn injected_key_cannot_be_invalidated() {
    let mut dice = DiceModern::<Injected>::new();
    let mut updater = dice.updater();
    assert!(updater.changed_to(&mut dice, vec![(Injected(1), 5)]).is_ok());
    assert!(matches!(
        updater.scheduled_change(&dice, &Injected(1)),
        Some((_, ChangeType::UpdateValue(x, StorageType::Injected), InvalidationSourcePriority::High)) if **x == 5
    ));
    let ctx = updater.commit(&mut dice);
    assert_eq!(ctx.get_version(), VersionNumber::new(1));

    let mut updater = dice.updater();
    match updater.changed(&mut dice, vec![Injected(1)]) {
        Err(e) => {
            assert!(e.is_injected_key_invalidated());
            assert!(!e.is_duplicate());
            assert_eq!(*e.key(), Injected(1));
            assert_eq!(e.message(), "Key of injected storage was invalidated");
        }
        Ok(()) => panic!("an injected key cannot be invalidated"),
    }
    let ctx = updater.commit(&mut dice);
    assert_eq!(ctx.get_version(), VersionNumber::new(1));
    // the value is still there
    let k = dice.key_index.index(&Injected(1)).unwrap();
    assert!(matches!(
        dice.state.lookup_key(VersionedGraphKey::new(VersionNumber::new(1), k)),
        VersionedGraphResult::Match(v) if *v.value() == 5
    ));
}

#[test]
fn commit_with_data_swaps_the_data() {
    let mut dice = DiceModern::<K>::new();
    let updater = dice.updater();
    let mut extra = buck2_engine::dice::user_data::UserComputationData::new();
    extra.mergebase = Some(buck2_engine::buck2_file_watcher::mergebase::Mergebase(Arc::new(
        Some("abc".to_owned()),
    )));
    let ctx = updater.commit_with_data(&mut dice, extra);
    assert_eq!(ctx.get_version(), VersionNumber::new(0));
    assert_eq!(ctx.user_data.mergebase.map(|m| (*m.0).clone()), Some(Some("abc".to_owned())));
}

#[test]
fn unstable_take_resets_the_graph() {
    let mut dice = DiceModern::<K>::new();
    let mut updater = dice.updater();
    assert!(updater.changed(&mut dice, vec![K(1)]).is_ok());
    let ctx = updater.commit(&mut dice);
    write(&mut dice, &ctx, DiceKey { index: 0 }, 1, vec![], ValueReusable::EqualityBased);

    let updater = dice.updater();
    let dropped = updater.unstable_take(&mut dice);
    assert_eq!(dropped.key_count(), 1);
    assert_eq!(dice.state.current_version(), VersionNumber::new(2));
    assert!(matches!(lookup(&dice, 1, DiceKey { index: 0 }), VersionedGraphResult::Rejected(_)));
    // the interned keys stay
    assert_eq!(dice.key_index.index(&K(1)), Some(DiceKey { index: 0 }));
}
