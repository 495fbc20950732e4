//! The engine as one service object: the interning table and the core state.

use vstd::prelude::*;

use crate::dice::internals::CoreState;
use crate::dice::key::Key;
use crate::dice::key::KeyIndex;
use crate::dice::transaction::TransactionUpdater;
use crate::dice::user_data::UserComputationData;

verus! {

pub struct DiceModern<K: Key> {
    pub key_index: KeyIndex<K>,
    pub state: CoreState<K>,
}

impl<K: Key> DiceModern<K> {
    pub open spec fn wf(&self) -> bool {
        self.key_index.wf() && self.state.wf()
    }

    pub fn new() -> (dice: Self)
        ensures
            dice.wf(),
            dice.key_index@.len() == 0,
            dice.state.version_tracker.current.0 == 0,
            dice.state.version_tracker.valid_versions_start.0 == 0,
            dice.state.version_tracker.next_epoch == 0,
            dice.state.version_tracker.active_versions@.len() == 0,
            dice.state.graph@.len() == 0,
            dice.state.pending_termination_tasks@.len() == 0,
    {
        DiceModern { key_index: KeyIndex::new(), state: CoreState::new() }
    }

    /// Begins a transaction.
    pub fn updater(&self) -> (updater: TransactionUpdater<K>)
        ensures
            updater.scheduled_changes.changes@.len() == 0,
            updater.scheduled_changes.wf(),
            updater.user_data.mergebase is None,
    {
        TransactionUpdater::new(UserComputationData::new())
    }

    /// Begins a transaction with the given data.
    pub fn updater_with_data(&self, extra: UserComputationData) -> (updater: TransactionUpdater<K>)
        ensures
            updater.scheduled_changes.changes@.len() == 0,
            updater.scheduled_changes.wf(),
            updater.user_data == extra,
    {
        TransactionUpdater::new(extra)
    }
}

} // verus!
