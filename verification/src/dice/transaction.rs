//! Transactions: the changes that a caller collects and then commits as one.

use std::collections::HashMap;
use std::sync::Arc;

use vstd::prelude::*;

use crate::dice::cache::SharedCacheRef;
use crate::dice::error::DiceError;
use crate::dice::graph::storage::VersionedGraph;
use crate::dice::graph::types::InvalidateKind;
use crate::dice::internals::CoreState;
use crate::dice::internals::changes_applied;
use crate::dice::key::DiceKey;
use crate::dice::key::InvalidationSourcePriority;
use crate::dice::key::Key;
use crate::dice::key::KeyIndex;
use crate::dice::key::StorageType;
use crate::dice::modern::DiceModern;
use crate::dice::user_data::UserComputationData;
use crate::dice::value::share;
use crate::dice::value::shared;
use crate::dice::version_tracker::VersionTracker;
use crate::dice::version_tracker::lemma_active_position;
use crate::dice::versions::VersionEpoch;
use crate::dice::versions::VersionNumber;

verus! {

/// A change to one key.
pub enum ChangeType<K: Key> {
    /// Just invalidate the key.
    Invalidate,
    /// Update the key to the given value.
    UpdateValue(Arc<K::Value>, StorageType),
}

impl<K: Key> ChangeType<K> {
    /// How the graph is told of the change.
    pub open spec fn kind_spec(self) -> InvalidateKind<K> {
        match self {
            ChangeType::Invalidate => InvalidateKind::ForceDirty,
            ChangeType::UpdateValue(value, storage) => InvalidateKind::Update(value, storage),
        }
    }

    pub fn kind(self) -> (kind: InvalidateKind<K>)
        ensures
            kind == self.kind_spec(),
    {
        match self {
            ChangeType::Invalidate => InvalidateKind::ForceDirty,
            ChangeType::UpdateValue(value, storage) => InvalidateKind::Update(value, storage),
        }
    }
}

/// Whether `changes` holds a change for `k`.
pub open spec fn has_change<K: Key>(
    changes: Seq<(DiceKey, ChangeType<K>, InvalidationSourcePriority)>,
    k: DiceKey,
) -> bool {
    exists|i: int| 0 <= i < changes.len() && (#[trigger] changes[i]).0 == k
}

/// The handle that `key` has, or would get, in the table `keys`.
pub open spec fn handle<K: Key>(keys: Seq<K>, key: K) -> DiceKey {
    DiceKey { index: KeyIndex::<K>::handle_of(keys, key) as u32 }
}

/// What registering `change` for `key` gives: the changes and the interned
/// keys afterwards, or the mistake.
///
/// Invalidating a key whose value is injected is a mistake, and so is a
/// second change for a key; a mistake leaves everything as it was.
pub open spec fn registered<K: Key>(
    changes: Seq<(DiceKey, ChangeType<K>, InvalidationSourcePriority)>,
    keys: Seq<K>,
    key: K,
    change: ChangeType<K>,
) -> Result<(Seq<(DiceKey, ChangeType<K>, InvalidationSourcePriority)>, Seq<K>), DiceError<K>> {
    if change is Invalidate && key.storage_type_spec() is Injected {
        Err(DiceError::InjectedKeyInvalidated(key))
    } else if has_change(changes, handle(keys, key)) {
        Err(DiceError::DuplicateChange(key))
    } else {
        Ok(
            (
                changes.push((handle(keys, key), change, key.priority_spec())),
                KeyIndex::<K>::interned(keys, key),
            ),
        )
    }
}

/// What registering `items` one after the other gives: the changes and the
/// interned keys afterwards, and the first mistake, at which registering
/// stops.
pub open spec fn all_registered<K: Key>(
    changes: Seq<(DiceKey, ChangeType<K>, InvalidationSourcePriority)>,
    keys: Seq<K>,
    items: Seq<(K, ChangeType<K>)>,
) -> (Seq<(DiceKey, ChangeType<K>, InvalidationSourcePriority)>, Seq<K>, Option<DiceError<K>>)
    decreases items.len(),
{
    if items.len() == 0 {
        (changes, keys, None)
    } else {
        match registered(changes, keys, items[0].0, items[0].1) {
            Err(e) => (changes, keys, Some(e)),
            Ok(next) => all_registered(next.0, next.1, items.drop_first()),
        }
    }
}

/// Marks a key as to be computed anew.
pub open spec fn as_invalidated<K: Key>() -> spec_fn(K) -> (K, ChangeType<K>) {
    |key: K| (key, ChangeType::Invalidate)
}

/// Marks a key as changed to a value.
pub open spec fn as_updated<K: Key>() -> spec_fn((K, K::Value)) -> (K, ChangeType<K>) {
    |item: (K, K::Value)|
        (item.0, ChangeType::UpdateValue(shared(item.1), item.0.storage_type_spec()))
}

/// Registering never takes a change back, and it never forgets a key.
pub proof fn lemma_all_registered_keeps<K: Key>(
    changes: Seq<(DiceKey, ChangeType<K>, InvalidationSourcePriority)>,
    keys: Seq<K>,
    items: Seq<(K, ChangeType<K>)>,
)
    ensures
        ({
            let after = all_registered(changes, keys, items);
            &&& changes.len() <= after.0.len() <= changes.len() + items.len()
            &&& after.0.take(changes.len() as int) == changes
            &&& keys.len() <= after.1.len() <= keys.len() + items.len()
            &&& after.1.take(keys.len() as int) == keys
        }),
    decreases items.len(),
{
    if items.len() == 0 {
        assert(changes.take(changes.len() as int) =~= changes);
        assert(keys.take(keys.len() as int) =~= keys);
    } else {
        match registered(changes, keys, items[0].0, items[0].1) {
            Err(e) => {
                assert(changes.take(changes.len() as int) =~= changes);
                assert(keys.take(keys.len() as int) =~= keys);
            },
            Ok(next) => {
                lemma_all_registered_keeps(next.0, next.1, items.drop_first());
                let after = all_registered(next.0, next.1, items.drop_first());
                assert(after.0.take(changes.len() as int) =~= after.0.take(
                    next.0.len() as int,
                ).take(changes.len() as int));
                assert(next.0.take(changes.len() as int) =~= changes);
                assert(after.1.take(keys.len() as int) =~= after.1.take(next.1.len() as int).take(
                    keys.len() as int,
                ));
                assert(next.1.take(keys.len() as int) =~= keys);
            },
        }
    }
}

/// The changes of a transaction, in the order in which they were registered.
pub struct Changes<K: Key> {
    pub changes: Vec<(DiceKey, ChangeType<K>, InvalidationSourcePriority)>,
    /// Where the change of each key stands in `changes`.
    pub index: HashMap<u32, usize>,
}

impl<K: Key> Changes<K> {
    /// The changes are well formed, and every key that has one is interned in
    /// `keys`.
    pub open spec fn wf_for(&self, keys: Seq<K>) -> bool {
        &&& self.wf()
        &&& forall|i: int|
            0 <= i < self.changes@.len() ==> (#[trigger] self.changes@[i]).0.index < keys.len()
    }

    /// No key has two changes, and the index knows where the change of each
    /// key stands.
    pub open spec fn wf(&self) -> bool {
        &&& forall|i: int, j: int|
            0 <= i < j < self.changes@.len() ==> (#[trigger] self.changes@[i]).0 != (
            #[trigger] self.changes@[j]).0
        &&& forall|i: int|
            0 <= i < self.changes@.len() ==> self.index@.contains_key(
                (#[trigger] self.changes@[i]).0.index,
            ) && self.index@[self.changes@[i].0.index] == i
        &&& forall|k: u32| #[trigger]
            self.index@.contains_key(k) ==> self.index@[k] < self.changes@.len()
                && self.changes@[self.index@[k] as int].0.index == k
    }

    pub fn new() -> (changes: Self)
        ensures
            changes.changes@.len() == 0,
            changes.wf(),
    {
        Changes { changes: Vec::new(), index: HashMap::new() }
    }

    /// The position of the change for `k`.
    pub fn position(&self, k: DiceKey) -> (found: Option<usize>)
        requires
            self.wf(),
        ensures
            found is Some <==> has_change(self.changes@, k),
            found matches Some(i) ==> i < self.changes@.len() && self.changes@[i as int].0 == k,
    {
        broadcast use vstd::std_specs::hash::group_hash_axioms;

        match self.index.get(&k.index) {
            Some(i) => {
                proof {
                    assert(self.index@.contains_key(k.index));
                    assert(self.changes@[*i as int].0 == k);
                }
                Some(*i)
            },
            None => {
                proof {
                    assert forall|j: int| 0 <= j < self.changes@.len() implies (
                    #[trigger] self.changes@[j]).0 != k by {
                        if self.changes@[j].0 == k {
                            assert(self.index@.contains_key(self.changes@[j].0.index));
                        }
                    }
                }
                None
            },
        }
    }

    /// The change that is registered for `k`.
    pub fn get(&self, k: DiceKey) -> (found: Option<
        &(DiceKey, ChangeType<K>, InvalidationSourcePriority),
    >)
        requires
            self.wf(),
        ensures
            found is Some <==> has_change(self.changes@, k),
            found matches Some(change) ==> change.0 == k && self.changes@.contains(*change),
    {
        match self.position(k) {
            Some(i) => Some(&self.changes[i]),
            None => None,
        }
    }

    /// Registers `change` for `key`.
    #[verifier::rlimit(50)]
    pub fn change(
        &mut self,
        key_index: &mut KeyIndex<K>,
        key: K,
        change: ChangeType<K>,
    ) -> (result: Result<(), DiceError<K>>)
        requires
            old(key_index).wf(),
            old(self).wf_for(old(key_index)@),
            old(key_index)@.contains(key) || old(key_index)@.len() < u32::MAX,
        ensures
            final(key_index).wf(),
            final(self).wf_for(final(key_index)@),
            match registered(old(self).changes@, old(key_index)@, key, change) {
                Ok(after) => {
                    &&& result is Ok
                    &&& final(self).changes@ == after.0
                    &&& final(key_index)@ == after.1
                },
                Err(e) => {
                    &&& result == Err::<(), DiceError<K>>(e)
                    &&& final(self).changes@ == old(self).changes@
                    &&& final(key_index)@ == old(key_index)@
                },
            },
    {
        let injected = match key.storage_type() {
            StorageType::Injected => true,
            StorageType::Normal => false,
        };
        let invalidate = match &change {
            ChangeType::Invalidate => true,
            ChangeType::UpdateValue(_, _) => false,
        };
        if invalidate && injected {
            return Err(DiceError::InjectedKeyInvalidated(key));
        }
        match key_index.index(&key) {
            Some(k) => {
                if self.position(k).is_some() {
                    return Err(DiceError::DuplicateChange(key));
                }
            },
            None => {
                proof {
                    let k = handle(key_index@, key);
                    assert(!has_change(self.changes@, k));
                }
            },
        }
        let priority = key.invalidation_source_priority();
        let k = key_index.index_key(key);
        let at = self.changes.len();
        self.changes.push((k, change, priority));
        self.index.insert(k.index, at);
        proof {
            broadcast use vstd::std_specs::hash::group_hash_axioms;

            assert forall|i: int| 0 <= i < self.changes@.len() implies self.index@.contains_key(
                (#[trigger] self.changes@[i]).0.index,
            ) && self.index@[self.changes@[i].0.index] == i by {
                if i < at {
                    assert(self.changes@[i] == old(self).changes@[i]);
                    assert(old(self).changes@[i].0 != k);
                }
            }
            assert forall|x: u32| #[trigger] self.index@.contains_key(x) implies self.index@[x]
                < self.changes@.len() && self.changes@[self.index@[x] as int].0.index == x by {
                if x != k.index {
                    assert(old(self).index@.contains_key(x));
                    assert(self.changes@[old(self).index@[x] as int] == old(
                        self,
                    ).changes@[old(self).index@[x] as int]);
                }
            }
            assert forall|i: int, j: int| 0 <= i < j < self.changes@.len() implies (
            #[trigger] self.changes@[i]).0 != (#[trigger] self.changes@[j]).0 by {
                if j < self.changes@.len() - 1 {
                    assert(old(self).changes@[i].0 != old(self).changes@[j].0);
                } else {
                    assert(old(self).changes@[i].0 != k);
                }
            }
        }
        Ok(())
    }
}

/// What a view needs to work at its version.
#[derive(Clone, Copy, Debug, PartialEq, Eq, Structural)]
pub struct SharedLiveTransactionCtx {
    pub version: VersionNumber,
    pub epoch: VersionEpoch,
    pub cache: SharedCacheRef,
}

/// Whether `after` is the core state `before` with `changes` committed and a
/// view `ctx` taken onto the version that is current then.
///
/// The changes are applied at the next version, so there is a next version:
/// nothing is committed at the largest one. That version is issued, and
/// becomes the current one, exactly if a change changed anything; else the
/// version stays as it was.
pub open spec fn committed<K: Key>(
    before: CoreState<K>,
    changes: Seq<(DiceKey, ChangeType<K>, InvalidationSourcePriority)>,
    after: CoreState<K>,
    ctx: SharedLiveTransactionCtx,
) -> bool {
    let next = VersionNumber((before.version_tracker.current.0 + 1) as u64);
    let applied = changes_applied(before.graph@, changes, next);
    let bumped = VersionTracker { current: ctx.version, ..before.version_tracker };
    &&& before.version_tracker.current.0 < u64::MAX
    &&& after.graph@ == applied.0
    &&& applied.1 ==> ctx.version == next
    &&& !applied.1 ==> ctx.version == before.version_tracker.current
    &&& after.version_tracker.current == ctx.version
    &&& bumped.acquires(&after.version_tracker, ctx.version, ctx.epoch)
    &&& ctx.cache.epoch == ctx.epoch
    &&& after.pending_termination_tasks == before.pending_termination_tasks
}

/// A view onto one version: what a caller reads the graph through.
pub struct BaseComputeCtx {
    /// The version that the view is on.
    pub version: VersionNumber,
    /// The epoch of the shared cache of the version.
    pub epoch: VersionEpoch,
    /// The shared cache of the version.
    pub cache: SharedCacheRef,
    pub user_data: UserComputationData,
    /// The reference to the version that the view holds.
    pub guard: ActiveTransactionGuard,
}

impl BaseComputeCtx {
    pub open spec fn transaction(&self) -> SharedLiveTransactionCtx {
        SharedLiveTransactionCtx { version: self.version, epoch: self.epoch, cache: self.cache }
    }

    pub fn new(
        transaction: SharedLiveTransactionCtx,
        user_data: UserComputationData,
        guard: ActiveTransactionGuard,
    ) -> (ctx: Self)
        ensures
            ctx.transaction() == transaction,
            ctx.user_data == user_data,
            ctx.guard == guard,
    {
        BaseComputeCtx {
            version: transaction.version,
            epoch: transaction.epoch,
            cache: transaction.cache,
            user_data,
            guard,
        }
    }

    pub fn get_version(&self) -> (v: VersionNumber)
        ensures
            v == self.version,
    {
        self.version
    }

    /// Ends the view: its reference to the version is given back.
    pub fn release<K: Key>(self, dice: &mut DiceModern<K>)
        requires
            old(dice).wf(),
            old(dice).state.version_tracker.is_active(self.guard.v),
        ensures
            final(dice).wf(),
            final(dice).key_index == old(dice).key_index,
            final(dice).state.graph == old(dice).state.graph,
            old(dice).state.version_tracker.releases(
                &final(dice).state.version_tracker,
                self.guard.v,
            ),
    {
        self.guard.release(&mut dice.state)
    }
}

/// Stands for one reference to a version. Whoever holds it gives the
/// reference back when done.
#[derive(Clone, Copy, Debug, PartialEq, Eq, Structural)]
pub struct ActiveTransactionGuard {
    pub v: VersionNumber,
}

impl ActiveTransactionGuard {
    pub fn new(v: VersionNumber) -> (guard: Self)
        ensures
            guard.v == v,
    {
        ActiveTransactionGuard { v }
    }

    /// Gives the reference back.
    pub fn release<K: Key>(self, state: &mut CoreState<K>)
        requires
            old(state).wf(),
            old(state).version_tracker.is_active(self.v),
        ensures
            final(state).wf(),
            final(state).graph == old(state).graph,
            old(state).version_tracker.releases(&final(state).version_tracker, self.v),
    {
        state.drop_ctx_at_version(self.v)
    }
}

pub struct TransactionUpdater<K: Key> {
    pub scheduled_changes: Changes<K>,
    pub user_data: UserComputationData,
}

impl<K: Key> TransactionUpdater<K> {
    pub fn new(user_data: UserComputationData) -> (updater: Self)
        ensures
            updater.scheduled_changes.changes@.len() == 0,
            updater.scheduled_changes.wf(),
            updater.user_data == user_data,
    {
        TransactionUpdater { scheduled_changes: Changes::new(), user_data }
    }

    /// Whether every key that has a change in this transaction is a key of
    /// `dice`: a transaction belongs to the engine that interned its keys.
    pub fn belongs_to(&self, dice: &DiceModern<K>) -> (b: bool)
        ensures
            b == forall|i: int|
                0 <= i < self.scheduled_changes.changes@.len() ==> (
                #[trigger] self.scheduled_changes.changes@[i]).0.index < dice.key_index@.len(),
    {
        let n = dice.key_index.len();
        let mut i: usize = 0;
        while i < self.scheduled_changes.changes.len()
            invariant
                i <= self.scheduled_changes.changes@.len(),
                n == dice.key_index@.len(),
                forall|j: int|
                    0 <= j < i ==> (#[trigger] self.scheduled_changes.changes@[j]).0.index < n,
            decreases self.scheduled_changes.changes@.len() - i,
        {
            if self.scheduled_changes.changes[i].0.index as usize >= n {
                assert(!(self.scheduled_changes.changes@[i as int].0.index < dice.key_index@.len()));
                return false;
            }
            i = i + 1;
        }
        true
    }

    /// The change that is registered for `key`.
    pub fn scheduled_change(&self, dice: &DiceModern<K>, key: &K) -> (found: Option<
        &(DiceKey, ChangeType<K>, InvalidationSourcePriority),
    >)
        requires
            dice.wf(),
            self.scheduled_changes.wf(),
        ensures
            found is Some <==> dice.key_index@.contains(*key) && has_change(
                self.scheduled_changes.changes@,
                handle(dice.key_index@, *key),
            ),
            found matches Some(change) ==> change.0 == handle(dice.key_index@, *key)
                && self.scheduled_changes.changes@.contains(*change),
    {
        match dice.key_index.index(key) {
            Some(k) => self.scheduled_changes.get(k),
            None => None,
        }
    }

    /// Registers `items` one after the other, up to the first mistake.
    #[verifier::rlimit(50)]
    fn register(
        &mut self,
        dice: &mut DiceModern<K>,
        items: Vec<(K, ChangeType<K>)>,
    ) -> (result: Result<(), DiceError<K>>)
        requires
            old(dice).wf(),
            old(self).scheduled_changes.wf_for(old(dice).key_index@),
            old(dice).key_index@.len() + items@.len() <= u32::MAX,
        ensures
            final(dice).wf(),
            final(self).scheduled_changes.wf_for(final(dice).key_index@),
            final(dice).state == old(dice).state,
            final(self).user_data == old(self).user_data,
            ({
                let after = all_registered(
                    old(self).scheduled_changes.changes@,
                    old(dice).key_index@,
                    items@,
                );
                &&& final(self).scheduled_changes.changes@ == after.0
                &&& final(dice).key_index@ == after.1
                &&& match after.2 {
                    Some(e) => result == Err::<(), DiceError<K>>(e),
                    None => result is Ok,
                }
            }),
    {
        let ghost all = items@;
        let ghost changes = self.scheduled_changes.changes@;
        let ghost keys = dice.key_index@;
        proof {
            assert(all.skip(0) =~= all);
        }
        for item in it: items
            invariant
                it.seq() == all,
                all == items@,
                changes == old(self).scheduled_changes.changes@,
                keys == old(dice).key_index@,
                dice.wf(),
                dice.state == old(dice).state,
                self.user_data == old(self).user_data,
                self.scheduled_changes.wf_for(dice.key_index@),
                dice.key_index@.len() + all.len() - it.index() <= u32::MAX,
                all_registered(changes, keys, all) == all_registered(
                    self.scheduled_changes.changes@,
                    dice.key_index@,
                    all.skip(it.index() as int),
                ),
        {
            proof {
                let rest = all.skip(it.index() as int);
                assert(rest[0] == item);
                assert(rest.drop_first() =~= all.skip(it.index() + 1));
            }
            let ghost before = (self.scheduled_changes.changes@, dice.key_index@);
            let (key, change) = item;
            match self.scheduled_changes.change(&mut dice.key_index, key, change) {
                Ok(()) => {},
                Err(e) => {
                    proof {
                        let rest = all.skip(it.index() as int);
                        assert(registered(before.0, before.1, rest[0].0, rest[0].1) is Err);
                        assert(all_registered(before.0, before.1, rest) == (
                            before.0,
                            before.1,
                            Some(e),
                        ));
                    }
                    return Err(e);
                },
            }
        }
        Ok(())
    }

    /// Records a set of keys as changed, so that they and what was computed
    /// from them are computed anew at the next version. Stops at the first
    /// key that is a mistake: one whose value is injected, or one that has a
    /// change in this transaction already. The keys before it stay
    /// registered.
    pub fn changed(&mut self, dice: &mut DiceModern<K>, changed: Vec<K>) -> (result: Result<
        (),
        DiceError<K>,
    >)
        requires
            old(dice).wf(),
            old(self).scheduled_changes.wf_for(old(dice).key_index@),
            old(dice).key_index@.len() + changed@.len() <= u32::MAX,
        ensures
            final(dice).wf(),
            final(self).scheduled_changes.wf_for(final(dice).key_index@),
            final(dice).state == old(dice).state,
            final(self).user_data == old(self).user_data,
            ({
                let after = all_registered(
                    old(self).scheduled_changes.changes@,
                    old(dice).key_index@,
                    changed@.map_values(as_invalidated()),
                );
                &&& final(self).scheduled_changes.changes@ == after.0
                &&& final(dice).key_index@ == after.1
                &&& match after.2 {
                    Some(e) => result == Err::<(), DiceError<K>>(e),
                    None => result is Ok,
                }
            }),
    {
        let ghost all = changed@;
        let mut items: Vec<(K, ChangeType<K>)> = Vec::new();
        for key in it: changed
            invariant
                it.seq() == all,
                items@ == all.take(it.index() as int).map_values(as_invalidated()),
        {
            items.push((key, ChangeType::Invalidate));
            proof {
                assert(all.take(it.index() + 1) =~= all.take(it.index() as int).push(key));
                assert(items@ =~= all.take(it.index() + 1).map_values(as_invalidated()));
            }
        }
        proof {
            assert(all.take(all.len() as int) =~= all);
        }
        self.register(dice, items)
    }

    /// Records a set of keys as changed to particular values, which the keys
    /// then have from the next version on without being computed. Stops at
    /// the first key that has a change in this transaction already; the keys
    /// before it stay registered.
    pub fn changed_to(
        &mut self,
        dice: &mut DiceModern<K>,
        changed: Vec<(K, K::Value)>,
    ) -> (result: Result<(), DiceError<K>>)
        requires
            old(dice).wf(),
            old(self).scheduled_changes.wf_for(old(dice).key_index@),
            old(dice).key_index@.len() + changed@.len() <= u32::MAX,
        ensures
            final(dice).wf(),
            final(self).scheduled_changes.wf_for(final(dice).key_index@),
            final(dice).state == old(dice).state,
            final(self).user_data == old(self).user_data,
            ({
                let after = all_registered(
                    old(self).scheduled_changes.changes@,
                    old(dice).key_index@,
                    changed@.map_values(as_updated()),
                );
                &&& final(self).scheduled_changes.changes@ == after.0
                &&& final(dice).key_index@ == after.1
                &&& match after.2 {
                    Some(e) => result == Err::<(), DiceError<K>>(e),
                    None => result is Ok,
                }
            }),
    {
        let ghost all = changed@;
        let mut items: Vec<(K, ChangeType<K>)> = Vec::new();
        for item in it: changed
            invariant
                it.seq() == all,
                items@ == all.take(it.index() as int).map_values(as_updated()),
        {
            let (k, new_value) = item;
            let storage = k.storage_type();
            items.push((k, ChangeType::UpdateValue(share(new_value), storage)));
            proof {
                assert(all.take(it.index() + 1) =~= all.take(it.index() as int).push(item));
                assert(items@ =~= all.take(it.index() + 1).map_values(as_updated()));
            }
        }
        proof {
            assert(all.take(all.len() as int) =~= all);
        }
        self.register(dice, items)
    }

    /// Hands the changes to the core state and takes a view onto the version
    /// that is current afterwards.
    pub fn commit_to_state(self, dice: &mut DiceModern<K>) -> (ctx: (
        SharedLiveTransactionCtx,
        ActiveTransactionGuard,
    ))
        requires
            old(dice).wf(),
            old(dice).state.version_tracker.current.0 < u64::MAX,
            old(dice).state.version_tracker.has_room(),
        ensures
            final(dice).wf(),
            final(dice).key_index == old(dice).key_index,
            committed(old(dice).state, self.scheduled_changes.changes@, final(dice).state, ctx.0),
            ctx.1.v == ctx.0.version,
    {
        let v = dice.state.update_state(self.scheduled_changes.changes);

        let guard = ActiveTransactionGuard::new(v);
        proof {
            let tracker = dice.state.version_tracker;
            if tracker.is_active(v) {
                lemma_active_position(tracker.active_versions@, v);
            }
        }
        let (epoch, cache) = dice.state.ctx_at_version(v);
        (SharedLiveTransactionCtx { version: v, epoch, cache }, guard)
    }

    /// Commits the changes that were registered, and gives a view onto the
    /// version that is current afterwards: the next version if a change
    /// changed anything, else the version that was current before.
    pub fn commit(self, dice: &mut DiceModern<K>) -> (ctx: BaseComputeCtx)
        requires
            old(dice).wf(),
            old(dice).state.version_tracker.current.0 < u64::MAX,
            old(dice).state.version_tracker.has_room(),
        ensures
            final(dice).wf(),
            final(dice).key_index == old(dice).key_index,
            committed(
                old(dice).state,
                self.scheduled_changes.changes@,
                final(dice).state,
                ctx.transaction(),
            ),
            ctx.guard.v == ctx.version,
            ctx.user_data == self.user_data,
    {
        let user_data = self.user_data.dupe();
        let (transaction, guard) = self.commit_to_state(dice);
        BaseComputeCtx::new(transaction, user_data, guard)
    }

    /// Commits like `commit`, with `extra` in place of the data that the
    /// transaction was begun with.
    pub fn commit_with_data(
        self,
        dice: &mut DiceModern<K>,
        extra: UserComputationData,
    ) -> (ctx: BaseComputeCtx)
        requires
            old(dice).wf(),
            old(dice).state.version_tracker.current.0 < u64::MAX,
            old(dice).state.version_tracker.has_room(),
        ensures
            final(dice).wf(),
            final(dice).key_index == old(dice).key_index,
            committed(
                old(dice).state,
                self.scheduled_changes.changes@,
                final(dice).state,
                ctx.transaction(),
            ),
            ctx.guard.v == ctx.version,
            ctx.user_data == extra,
    {
        let (transaction, guard) = self.commit_to_state(dice);
        BaseComputeCtx::new(transaction, extra, guard)
    }

    /// A view onto the current version, with no change made.
    pub fn existing_state(&self, dice: &mut DiceModern<K>) -> (ctx: BaseComputeCtx)
        requires
            old(dice).wf(),
            old(dice).state.version_tracker.has_room(),
        ensures
            final(dice).wf(),
            final(dice).key_index == old(dice).key_index,
            final(dice).state.graph == old(dice).state.graph,
            final(dice).state.pending_termination_tasks == old(dice).state.pending_termination_tasks,
            ctx.version == old(dice).state.version_tracker.current,
            old(dice).state.version_tracker.acquires(
                &final(dice).state.version_tracker,
                ctx.version,
                ctx.epoch,
            ),
            ctx.cache.epoch == ctx.epoch,
            ctx.guard.v == ctx.version,
            ctx.user_data == self.user_data,
    {
        let v = dice.state.current_version();
        let guard = ActiveTransactionGuard::new(v);
        proof {
            let tracker = dice.state.version_tracker;
            if tracker.is_active(v) {
                lemma_active_position(tracker.active_versions@, v);
            }
        }
        let (epoch, cache) = dice.state.ctx_at_version(v);
        BaseComputeCtx::new(
            SharedLiveTransactionCtx { version: v, epoch, cache },
            self.user_data.dupe(),
            guard,
        )
    }

    /// Resets the graph. The nodes are handed to the caller to drop.
    pub fn unstable_take(&self, dice: &mut DiceModern<K>) -> (dropped: VersionedGraph<K>)
        requires
            old(dice).wf(),
            old(dice).state.version_tracker.current.0 < u64::MAX,
        ensures
            final(dice).wf(),
            final(dice).key_index == old(dice).key_index,
            final(dice).state.version_tracker.current.0 == old(dice).state.version_tracker.current.0
                + 1,
            final(dice).state.version_tracker.valid_versions_start == final(dice).state.version_tracker.current,
            final(dice).state.version_tracker.active_versions == old(dice).state.version_tracker.active_versions,
            final(dice).state.version_tracker.next_epoch == old(dice).state.version_tracker.next_epoch,
            final(dice).state.graph@.len() == 0,
            dropped == old(dice).state.graph,
    {
        dice.state.unstable_drop_everything()
    }
}

/// A second change for a key in one transaction is a mistake, and the first
/// change stays registered as it was. (Where the second change invalidates a
/// key whose value is injected, that is the mistake that is reported.)
pub proof fn lemma_second_change_is_duplicate<K: Key>(
    changes: Seq<(DiceKey, ChangeType<K>, InvalidationSourcePriority)>,
    keys: Seq<K>,
    key: K,
    first: ChangeType<K>,
    second: ChangeType<K>,
)
    requires
        keys.no_duplicates(),
        registered(changes, keys, key, first) is Ok,
        !(second is Invalidate && key.storage_type_spec() is Injected),
    ensures
        ({
            let after = registered(changes, keys, key, first)->Ok_0;
            &&& registered(after.0, after.1, key, second) == Err::<
                (Seq<(DiceKey, ChangeType<K>, InvalidationSourcePriority)>, Seq<K>),
                DiceError<K>,
            >(DiceError::DuplicateChange(key))
            &&& after.0.last() == (handle(keys, key), first, key.priority_spec())
            &&& handle(after.1, key) == handle(keys, key)
            &&& has_change(after.0, handle(after.1, key))
        }),
{
    let after = registered(changes, keys, key, first)->Ok_0;
    if keys.contains(key) {
    } else {
        assert(after.1[keys.len() as int] == key);
        assert(after.1.contains(key));
        let i = after.1.index_of(key);
        assert(after.1[i] == key);
        if i < keys.len() {
            assert(keys[i] == key);
        }
    }
    assert(after.0[after.0.len() - 1].0 == handle(keys, key));
}

/// A key whose value is injected cannot be invalidated, whatever was
/// registered or committed before: the answer is the mistake that names the
/// key, and nothing is registered.
pub proof fn lemma_injected_key_is_not_invalidated<K: Key>(
    changes: Seq<(DiceKey, ChangeType<K>, InvalidationSourcePriority)>,
    keys: Seq<K>,
    key: K,
)
    requires
        key.storage_type_spec() is Injected,
    ensures
        registered(changes, keys, key, ChangeType::<K>::Invalidate) == Err::<
            (Seq<(DiceKey, ChangeType<K>, InvalidationSourcePriority)>, Seq<K>),
            DiceError<K>,
        >(DiceError::InjectedKeyInvalidated(key)),
        all_registered(changes, keys, seq![key].map_values(as_invalidated())) == (
            changes,
            keys,
            Some(DiceError::InjectedKeyInvalidated(key)),
        ),
{
    let items = seq![key].map_values(as_invalidated());
    assert(items[0] == (key, ChangeType::<K>::Invalidate));
}

} // verus!
