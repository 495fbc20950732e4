//! One computation of one key at one version, as an explicit state machine.
//!
//! A task starts out pending, runs, and ends either finished with a value or
//! cancelled. Cancellation is cooperative: while the computation is inside a
//! critical section a request to cancel is only noted, and takes effect when
//! the last critical section is left.

use vstd::prelude::*;

use crate::dice::key::DiceKey;
use crate::dice::key::Key;
use crate::dice::key::ParentKey;
use crate::dice::value::DiceComputedValue;
use crate::dice::versions::VersionEpoch;

verus! {

/// Why a computation was stopped or its result thrown away.
#[derive(Clone, Copy, Debug, PartialEq, Eq, Structural, Hash)]
pub enum CancellationReason {
    /// The version was made obsolete by a reset of the whole graph.
    Rejected,
    /// The shared cache of the version was re-created after the computation
    /// had started.
    OutdatedEpoch,
    /// The last view onto the version was dropped.
    TransactionDropped,
    /// The shared cache was asked after it had been evicted.
    TransactionCancelled,
    /// Cancelled on request of a test.
    ByTest,
}

pub enum DiceTaskState<K: Key> {
    /// Created, not started yet.
    Pending,
    /// The computation runs.
    Running,
    /// The computation produced a value.
    Finished(DiceComputedValue<K>),
    /// The computation was stopped.
    Cancelled(CancellationReason),
}

/// What can happen to a task.
pub enum DiceTaskEvent<K: Key> {
    /// The first requester starts to drive the computation.
    Start,
    /// The computation enters a region that must run to its end.
    EnterCriticalSection,
    /// The computation leaves such a region.
    ExitCriticalSection,
    /// Somebody asks the task to stop.
    Cancel(CancellationReason),
    /// The computation completed with a value.
    Finished(DiceComputedValue<K>),
}

/// What a requester gets when it attaches to a task.
pub enum DicePromise<K: Key> {
    /// The value is there.
    Ready(DiceComputedValue<K>),
    /// The computation is not done; the requester waits for the signal that
    /// all requesters of the task share.
    Pending,
}

/// Names a task whose end somebody waits for.
#[derive(Clone, Copy, Debug, PartialEq, Eq, Structural, Hash)]
pub struct TerminationObserver {
    pub key: DiceKey,
    pub epoch: VersionEpoch,
}

pub struct DiceTask<K: Key> {
    /// The key that is computed.
    pub key: DiceKey,
    /// The epoch of the shared cache that the task belongs to.
    pub epoch: VersionEpoch,
    pub state: DiceTaskState<K>,
    /// A request to cancel that waits for the end of the critical sections.
    pub cancel_requested: Option<CancellationReason>,
    /// How many critical sections the computation is in.
    pub critical_sections: usize,
}

impl<K: Key> DiceTask<K> {
    /// Critical sections exist only while the task runs, and a request to
    /// cancel is kept back only inside one.
    pub open spec fn wf(self) -> bool {
        &&& self.critical_sections > 0 ==> self.state is Running
        &&& self.cancel_requested is Some ==> self.critical_sections > 0
    }

    /// Not finished and not cancelled: the computation may still run code.
    pub open spec fn is_pending_spec(&self) -> bool {
        self.state is Pending || self.state is Running
    }

    pub open spec fn is_finished_spec(&self) -> bool {
        self.state is Finished
    }

    pub open spec fn new_spec(key: DiceKey, epoch: VersionEpoch) -> Self {
        DiceTask {
            key,
            epoch,
            state: DiceTaskState::Pending,
            cancel_requested: None,
            critical_sections: 0,
        }
    }

    pub open spec fn start_spec(self) -> Self {
        if self.state is Pending {
            DiceTask { state: DiceTaskState::Running, ..self }
        } else {
            self
        }
    }

    pub open spec fn enter_critical_section_spec(self) -> Self {
        if self.state is Running && self.critical_sections < usize::MAX {
            DiceTask { critical_sections: (self.critical_sections + 1) as usize, ..self }
        } else {
            self
        }
    }

    pub open spec fn exit_critical_section_spec(self) -> Self {
        if self.state is Running && self.critical_sections > 0 {
            if self.critical_sections == 1 && self.cancel_requested is Some {
                DiceTask {
                    state: DiceTaskState::Cancelled(self.cancel_requested->0),
                    cancel_requested: None,
                    critical_sections: 0,
                    ..self
                }
            } else {
                DiceTask { critical_sections: (self.critical_sections - 1) as usize, ..self }
            }
        } else {
            self
        }
    }

    pub open spec fn cancel_spec(self, reason: CancellationReason) -> Self {
        if !self.is_pending_spec() {
            self
        } else if self.critical_sections > 0 {
            if self.cancel_requested is Some {
                self
            } else {
                DiceTask { cancel_requested: Some(reason), ..self }
            }
        } else {
            DiceTask { state: DiceTaskState::Cancelled(reason), ..self }
        }
    }

    pub open spec fn finished_spec(self, value: DiceComputedValue<K>) -> Self {
        if self.state is Running {
            DiceTask {
                state: DiceTaskState::Finished(value),
                cancel_requested: None,
                critical_sections: 0,
                ..self
            }
        } else {
            self
        }
    }

    /// The task after `event`, with the event ignored where it does not fit
    /// the state.
    pub open spec fn apply_spec(self, event: DiceTaskEvent<K>) -> Self {
        match event {
            DiceTaskEvent::Start => self.start_spec(),
            DiceTaskEvent::EnterCriticalSection => self.enter_critical_section_spec(),
            DiceTaskEvent::ExitCriticalSection => self.exit_critical_section_spec(),
            DiceTaskEvent::Cancel(reason) => self.cancel_spec(reason),
            DiceTaskEvent::Finished(value) => self.finished_spec(value),
        }
    }

    /// Whether `event` fits the state of the task.
    pub open spec fn accepts(self, event: DiceTaskEvent<K>) -> bool {
        match event {
            DiceTaskEvent::Start => self.state is Pending,
            DiceTaskEvent::EnterCriticalSection => self.state is Running && self.critical_sections
                < usize::MAX,
            DiceTaskEvent::ExitCriticalSection => self.state is Running && self.critical_sections
                > 0,
            DiceTaskEvent::Cancel(_) => self.is_pending_spec(),
            DiceTaskEvent::Finished(_) => self.state is Running,
        }
    }

    /// A task for `key` in the cache of epoch `epoch` that has not started.
    pub fn new(key: DiceKey, epoch: VersionEpoch) -> (task: Self)
        ensures
            task == Self::new_spec(key, epoch),
            task.wf(),
    {
        DiceTask {
            key,
            epoch,
            state: DiceTaskState::Pending,
            cancel_requested: None,
            critical_sections: 0,
        }
    }

    pub fn key(&self) -> (key: DiceKey)
        ensures
            key == self.key,
    {
        self.key
    }

    #[verifier::when_used_as_spec(is_pending_spec)]
    pub fn is_pending(&self) -> (b: bool)
        ensures
            b == self.is_pending_spec(),
    {
        match &self.state {
            DiceTaskState::Pending => true,
            DiceTaskState::Running => true,
            _ => false,
        }
    }

    #[verifier::when_used_as_spec(is_finished_spec)]
    pub fn is_finished(&self) -> (b: bool)
        ensures
            b == self.is_finished_spec(),
    {
        match &self.state {
            DiceTaskState::Finished(_) => true,
            _ => false,
        }
    }

    /// The first requester starts the computation. Gives `false`, and changes
    /// nothing, unless the task was pending.
    pub fn start(&mut self) -> (started: bool)
        requires
            old(self).wf(),
        ensures
            final(self).wf(),
            *final(self) == old(self).start_spec(),
            started == (old(self).state is Pending),
    {
        match &self.state {
            DiceTaskState::Pending => {
                self.state = DiceTaskState::Running;
                true
            },
            _ => false,
        }
    }

    /// Enters a critical section. Gives `false`, and changes nothing, unless
    /// the task runs.
    pub fn enter_critical_section(&mut self) -> (entered: bool)
        requires
            old(self).wf(),
        ensures
            final(self).wf(),
            *final(self) == old(self).enter_critical_section_spec(),
            entered == old(self).accepts(DiceTaskEvent::EnterCriticalSection),
    {
        match &self.state {
            DiceTaskState::Running => {
                if self.critical_sections < usize::MAX {
                    self.critical_sections = self.critical_sections + 1;
                    true
                } else {
                    false
                }
            },
            _ => false,
        }
    }

    /// Leaves a critical section. A request to cancel that came in meanwhile
    /// takes effect when the last section is left.
    pub fn exit_critical_section(&mut self) -> (left: bool)
        requires
            old(self).wf(),
        ensures
            final(self).wf(),
            *final(self) == old(self).exit_critical_section_spec(),
            left == old(self).accepts(DiceTaskEvent::ExitCriticalSection),
    {
        match &self.state {
            DiceTaskState::Running => {
                if self.critical_sections == 0 {
                    return false;
                }
                match self.cancel_requested {
                    Some(reason) => {
                        if self.critical_sections == 1 {
                            self.state = DiceTaskState::Cancelled(reason);
                            self.cancel_requested = None;
                            self.critical_sections = 0;
                        } else {
                            self.critical_sections = self.critical_sections - 1;
                        }
                    },
                    None => {
                        self.critical_sections = self.critical_sections - 1;
                    },
                }
                true
            },
            _ => false,
        }
    }

    /// Asks the task to stop. A task outside of any critical section stops at
    /// once; inside one the first request is noted. A task that has ended is
    /// not changed.
    pub fn cancel(&mut self, reason: CancellationReason)
        requires
            old(self).wf(),
        ensures
            final(self).wf(),
            *final(self) == old(self).cancel_spec(reason),
    {
        if !self.is_pending() {
            return ;
        }
        if self.critical_sections > 0 {
            if self.cancel_requested.is_none() {
                self.cancel_requested = Some(reason);
            }
        } else {
            self.state = DiceTaskState::Cancelled(reason);
        }
    }

    /// The computation completed. Gives `false`, and drops the value, unless
    /// the task runs.
    pub fn finished(&mut self, value: DiceComputedValue<K>) -> (stored: bool)
        requires
            old(self).wf(),
        ensures
            final(self).wf(),
            *final(self) == old(self).finished_spec(value),
            stored == (old(self).state is Running),
    {
        match &self.state {
            DiceTaskState::Running => {
                self.state = DiceTaskState::Finished(value);
                self.cancel_requested = None;
                self.critical_sections = 0;
                true
            },
            _ => false,
        }
    }

    /// Applies `event`; says whether it fitted the state. An event that does
    /// not fit changes nothing.
    pub fn apply(&mut self, event: DiceTaskEvent<K>) -> (accepted: bool)
        requires
            old(self).wf(),
        ensures
            final(self).wf(),
            *final(self) == old(self).apply_spec(event),
            accepted == old(self).accepts(event),
            !accepted ==> *final(self) == *old(self),
    {
        match event {
            DiceTaskEvent::Start => self.start(),
            DiceTaskEvent::EnterCriticalSection => self.enter_critical_section(),
            DiceTaskEvent::ExitCriticalSection => self.exit_critical_section(),
            DiceTaskEvent::Cancel(reason) => {
                let pending = self.is_pending();
                self.cancel(reason);
                pending
            },
            DiceTaskEvent::Finished(value) => self.finished(value),
        }
    }

    /// A further requester attaches to the task: it gets the value if there is
    /// one, the reason if the task was cancelled, and else waits with the
    /// others. The task itself is not changed, so no second computation
    /// starts.
    pub fn depended_on_by(&self, parent: ParentKey) -> (promise: Result<
        DicePromise<K>,
        CancellationReason,
    >)
        ensures
            match self.state {
                DiceTaskState::Finished(value) => promise == Ok::<
                    DicePromise<K>,
                    CancellationReason,
                >(DicePromise::Ready(value)),
                DiceTaskState::Cancelled(reason) => promise == Err::<
                    DicePromise<K>,
                    CancellationReason,
                >(reason),
                _ => promise == Ok::<DicePromise<K>, CancellationReason>(DicePromise::Pending),
            },
    {
        match &self.state {
            DiceTaskState::Finished(value) => Ok(DicePromise::Ready(value.dupe())),
            DiceTaskState::Cancelled(reason) => Err(*reason),
            _ => Ok(DicePromise::Pending),
        }
    }

    /// Names the task for somebody who waits for its end.
    pub fn await_termination(&self) -> (observer: TerminationObserver)
        ensures
            observer.key == self.key,
            observer.epoch == self.epoch,
    {
        TerminationObserver { key: self.key, epoch: self.epoch }
    }
}

/// A task that has ended stays as it is, whatever happens.
pub proof fn lemma_ended_task_is_final<K: Key>(task: DiceTask<K>, event: DiceTaskEvent<K>)
    requires
        task.wf(),
        !task.is_pending_spec(),
    ensures
        task.apply_spec(event) == task,
        !task.accepts(event),
{
}

/// A request to cancel a task that is inside critical sections leaves it
/// running; once it has left all of them, it is cancelled for the reason that
/// was given first.
pub proof fn lemma_cancel_waits_for_critical_section<K: Key>(
    task: DiceTask<K>,
    reason: CancellationReason,
)
    requires
        task.wf(),
        task.state is Running,
        task.critical_sections > 0,
        task.cancel_requested is None,
    ensures
        task.cancel_spec(reason).state is Running,
        task.cancel_spec(reason).is_pending_spec(),
        task.critical_sections == 1 ==> task.cancel_spec(reason).exit_critical_section_spec().state
            == DiceTaskState::<K>::Cancelled(reason),
        task.critical_sections > 1 ==> task.cancel_spec(reason).exit_critical_section_spec().state
            is Running,
{
}

/// Outside of critical sections a request to cancel stops a pending or
/// running task at once.
pub proof fn lemma_cancel_outside_critical_section<K: Key>(
    task: DiceTask<K>,
    reason: CancellationReason,
)
    requires
        task.wf(),
        task.is_pending_spec(),
        task.critical_sections == 0,
    ensures
        task.cancel_spec(reason).state == DiceTaskState::<K>::Cancelled(reason),
{
}

} // verus!
