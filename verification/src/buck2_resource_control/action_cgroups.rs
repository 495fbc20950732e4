//! The control groups of the running actions, and the decisions on freezing.
//!
//! Nothing here touches the file system or the clock. Whoever drives this
//! reads the memory files and the time, hands the readings in, and carries
//! out what is decided: it writes to the freeze file of the control group
//! that is to be frozen or unfrozen, and reports back how that went.

use vstd::prelude::*;

use crate::buck2_error::error::Error;
use crate::buck2_resource_control::memory_tracker::MemoryPressureState;
use crate::buck2_resource_control::memory_tracker::MemoryReading;
use crate::text::chars_of;
use crate::text::parse_u64;
use crate::text::parsed_u64;

verus! {

/// The least time between two freezes, in milliseconds: what a freeze does to
/// memory shows only after a while.
pub const FREEZE_INTERVAL_MS: u64 = 1000;

/// The least time between two unfreezes, in milliseconds.
pub const UNFREEZE_INTERVAL_MS: u64 = 3000;

/// What kind of command runs in a control group.
#[derive(Clone, Copy, Debug, PartialEq, Eq, Structural)]
pub enum CommandType {
    Build,
    Test,
    Worker,
}

impl CommandType {
    pub fn as_str(&self) -> (name: &'static str)
        ensures
            name@ == (match *self {
                CommandType::Build => "build"@,
                CommandType::Test => "test"@,
                CommandType::Worker => "worker"@,
            }),
    {
        match self {
            CommandType::Build => "build",
            CommandType::Test => "test",
            CommandType::Worker => "worker",
        }
    }
}

/// Memory constraints inherited from ancestor cgroups in the hierarchy: for
/// each limit the nearest value that an ancestor sets. None means that no
/// ancestor sets the limit.
#[derive(Clone, Copy, Debug, PartialEq, Eq, Structural)]
pub struct AncestorCgroupConstraints {
    pub memory_max: Option<u64>,
    pub memory_high: Option<u64>,
    pub memory_swap_max: Option<u64>,
    pub memory_swap_high: Option<u64>,
}

/// Which of the limits could not be read as a number.
#[derive(Clone, Copy, Debug, PartialEq, Eq, Structural)]
pub enum InvalidLimit {
    MemoryMax,
    MemoryHigh,
    MemorySwapMax,
    MemorySwapHigh,
}

/// What a limit file says, read as a number; none where no file sets the
/// limit.
pub open spec fn limit_of(text: Option<Seq<char>>) -> Option<Option<u64>> {
    match text {
        None => Some(None),
        Some(text) => match parsed_u64(text) {
            Some(value) => Some(Some(value)),
            None => None,
        },
    }
}

fn parse_limit(text: &Option<String>) -> (limit: Option<Option<u64>>)
    ensures
        limit == limit_of(
            match *text {
                Some(text) => Some(text@),
                None => None,
            },
        ),
{
    match text {
        None => Some(None),
        Some(text) => {
            let chars = chars_of(text.as_str());
            proof {
                assert(chars@.subrange(0, chars@.len() as int) =~= chars@);
            }
            match parse_u64(&chars, 0, chars.len()) {
                Some(value) => Some(Some(value)),
                None => None,
            }
        },
    }
}

impl AncestorCgroupConstraints {
    /// The constraints from what the limit files of the nearest ancestors
    /// say. The limits are read in their order; the first that is no number
    /// is the error.
    pub fn new(
        memory_max: Option<String>,
        memory_high: Option<String>,
        memory_swap_max: Option<String>,
        memory_swap_high: Option<String>,
    ) -> (result: Result<AncestorCgroupConstraints, InvalidLimit>)
        ensures
            match (
                parse_limit_spec(memory_max),
                parse_limit_spec(memory_high),
                parse_limit_spec(memory_swap_max),
                parse_limit_spec(memory_swap_high),
            ) {
                (None, _, _, _) => result == Err::<AncestorCgroupConstraints, InvalidLimit>(
                    InvalidLimit::MemoryMax,
                ),
                (Some(_), None, _, _) => result == Err::<AncestorCgroupConstraints, InvalidLimit>(
                    InvalidLimit::MemoryHigh,
                ),
                (Some(_), Some(_), None, _) => result == Err::<
                    AncestorCgroupConstraints,
                    InvalidLimit,
                >(InvalidLimit::MemorySwapMax),
                (Some(_), Some(_), Some(_), None) => result == Err::<
                    AncestorCgroupConstraints,
                    InvalidLimit,
                >(InvalidLimit::MemorySwapHigh),
                (Some(max), Some(high), Some(swap_max), Some(swap_high)) => result == Ok::<
                    AncestorCgroupConstraints,
                    InvalidLimit,
                >(
                    AncestorCgroupConstraints {
                        memory_max: max,
                        memory_high: high,
                        memory_swap_max: swap_max,
                        memory_swap_high: swap_high,
                    },
                ),
            },
    {
        let max = match parse_limit(&memory_max) {
            Some(limit) => limit,
            None => {
                return Err(InvalidLimit::MemoryMax);
            },
        };
        let high = match parse_limit(&memory_high) {
            Some(limit) => limit,
            None => {
                return Err(InvalidLimit::MemoryHigh);
            },
        };
        let swap_max = match parse_limit(&memory_swap_max) {
            Some(limit) => limit,
            None => {
                return Err(InvalidLimit::MemorySwapMax);
            },
        };
        let swap_high = match parse_limit(&memory_swap_high) {
            Some(limit) => limit,
            None => {
                return Err(InvalidLimit::MemorySwapHigh);
            },
        };
        Ok(
            AncestorCgroupConstraints {
                memory_max: max,
                memory_high: high,
                memory_swap_max: swap_max,
                memory_swap_high: swap_high,
            },
        )
    }
}

/// What a limit file says, read as a number.
pub open spec fn parse_limit_spec(text: Option<String>) -> Option<Option<u64>> {
    limit_of(
        match text {
            Some(text) => Some(text@),
            None => None,
        },
    )
}

/// What is known of a control group when its command is done.
pub struct ActionCgroupResult {
    pub memory_peak: Option<u64>,
    pub swap_peak: Option<u64>,
    pub error: Option<Error>,
    pub was_frozen: bool,
    /// For how long the control group was frozen, in milliseconds.
    pub freeze_duration: Option<u64>,
}

impl ActionCgroupResult {
    pub fn from_info(cgroup_info: ActionCgroup) -> (result: Self)
        ensures
            result.memory_peak == Some(cgroup_info.memory_peak),
            result.swap_peak == Some(cgroup_info.swap_peak),
            result.error == cgroup_info.error,
            result.was_frozen == cgroup_info.was_frozen,
            result.freeze_duration == cgroup_info.freeze_duration,
    {
        Self {
            memory_peak: Some(cgroup_info.memory_peak),
            swap_peak: Some(cgroup_info.swap_peak),
            error: cgroup_info.error,
            was_frozen: cgroup_info.was_frozen,
            freeze_duration: cgroup_info.freeze_duration,
        }
    }

    pub fn from_error(e: Error) -> (result: Self)
        ensures
            result.memory_peak is None,
            result.swap_peak is None,
            result.error == Some(e),
            !result.was_frozen,
            result.freeze_duration is None,
    {
        Self {
            memory_peak: None,
            swap_peak: None,
            error: Some(e),
            was_frozen: false,
            freeze_duration: None,
        }
    }
}

/// The control group of one running command.
pub struct ActionCgroup {
    pub path: String,
    pub memory_initial: u64,
    pub memory_peak: u64,
    pub memory_current: u64,
    pub swap_initial: u64,
    pub swap_current: u64,
    pub swap_peak: u64,
    pub error: Option<Error>,
    pub was_frozen: bool,
    /// When the control group was frozen, in milliseconds.
    pub freeze_start: Option<u64>,
    /// For how long the control group was frozen so far, in milliseconds.
    pub freeze_duration: Option<u64>,
    /// Whether the control group is frozen.
    pub frozen: bool,
    pub command_type: CommandType,
    /// memory.current value when this cgroup was frozen. Used to calculate
    /// whether we can unfreeze early
    pub memory_current_when_frozen: Option<u64>,
    pub action_digest: Option<String>,
}

impl ActionCgroup {
    /// The control group after a reading of its memory and its swap: the
    /// current values are noted, and each peak is the most by which a value
    /// was ever over its initial value.
    pub open spec fn with_reading(self, memory_current: u64, swap_current: u64) -> Self {
        ActionCgroup {
            memory_current,
            memory_peak: if memory_current >= self.memory_initial && memory_current
                - self.memory_initial > self.memory_peak {
                (memory_current - self.memory_initial) as u64
            } else {
                self.memory_peak
            },
            swap_current,
            swap_peak: if swap_current >= self.swap_initial && swap_current - self.swap_initial
                > self.swap_peak {
                (swap_current - self.swap_initial) as u64
            } else {
                self.swap_peak
            },
            ..self
        }
    }

    /// The control group after it was frozen at `now`.
    pub open spec fn when_frozen(self, now: u64) -> Self {
        ActionCgroup {
            freeze_start: Some(now),
            frozen: true,
            memory_current_when_frozen: Some(self.memory_current),
            ..self
        }
    }

    /// The control group after it was unfrozen at `now`.
    pub open spec fn when_unfrozen(self, now: u64) -> Self {
        ActionCgroup {
            was_frozen: true,
            frozen: false,
            freeze_duration: Some(
                sum_capped(
                    match self.freeze_duration {
                        Some(duration) => duration,
                        None => 0,
                    },
                    elapsed(self.freeze_start->0, now),
                ),
            ),
            ..self
        }
    }
}

/// The time from `since` to `now`; zero if `now` is the earlier one.
pub open spec fn elapsed(since: u64, now: u64) -> u64 {
    if now >= since {
        (now - since) as u64
    } else {
        0
    }
}

/// The sum of two times, or the longest time there is if the sum is longer.
pub open spec fn sum_capped(a: u64, b: u64) -> u64 {
    if a + b <= u64::MAX {
        (a + b) as u64
    } else {
        u64::MAX
    }
}

/// Whether the event tells of a freeze or of an unfreeze.
#[derive(Clone, Copy, Debug, PartialEq, Eq, Structural)]
pub enum ResourceControlKind {
    Freeze,
    Unfreeze,
}

/// What is reported when a control group is frozen or unfrozen.
pub struct ResourceControlEvents {
    pub action_digest: String,
    pub command: CommandType,
    pub kind: ResourceControlKind,
    pub memory_current: u64,
    pub memory_swap_current: u64,
    pub memory_pressure: u64,
    pub daemon_memory_current: u64,
    pub daemon_swap_current: u64,
    pub cgroup_memory_current: u64,
    pub cgroup_memory_peak: u64,
    pub cgroup_swap_current: u64,
    pub cgroup_swap_peak: u64,
    pub frozen_cgroup_count: u64,
    pub active_cgroup_count: u64,
    pub ancestor_cgroup_constraints: Option<AncestorCgroupConstraints>,
}

/// Whether `event` reports `kind` for `cgroup` with the figures given.
pub open spec fn reports(
    event: ResourceControlEvents,
    memory_reading: MemoryReading,
    kind: ResourceControlKind,
    cgroup: ActionCgroup,
    frozen_cgroup_count: u64,
    active_cgroup_count: u64,
    ancestor_cgroup_constraints: Option<AncestorCgroupConstraints>,
) -> bool {
    &&& event.action_digest@ == (match cgroup.action_digest {
        Some(digest) => digest@,
        None => Seq::empty(),
    })
    &&& event.command == cgroup.command_type
    &&& event.kind == kind
    &&& event.memory_current == memory_reading.buck2_slice_memory_current
    &&& event.memory_swap_current == memory_reading.buck2_slice_memory_swap_current
    &&& event.memory_pressure == memory_reading.buck2_slice_memory_pressure
    &&& event.daemon_memory_current == memory_reading.daemon_memory_current
    &&& event.daemon_swap_current == memory_reading.daemon_memory_swap_current
    &&& event.cgroup_memory_current == cgroup.memory_current
    &&& event.cgroup_memory_peak == cgroup.memory_peak
    &&& event.cgroup_swap_current == cgroup.swap_current
    &&& event.cgroup_swap_peak == cgroup.swap_peak
    &&& event.frozen_cgroup_count == frozen_cgroup_count
    &&& event.active_cgroup_count == active_cgroup_count
    &&& event.ancestor_cgroup_constraints == ancestor_cgroup_constraints
}

/// The report of a freeze or an unfreeze of `cgroup`.
pub fn emit_resource_control_event(
    memory_reading: &MemoryReading,
    kind: ResourceControlKind,
    cgroup: &ActionCgroup,
    frozen_cgroup_count: u64,
    active_cgroup_count: u64,
    ancestor_cgroup_constraints: &Option<AncestorCgroupConstraints>,
) -> (event: ResourceControlEvents)
    ensures
        reports(
            event,
            *memory_reading,
            kind,
            *cgroup,
            frozen_cgroup_count,
            active_cgroup_count,
            *ancestor_cgroup_constraints,
        ),
{
    ResourceControlEvents {
        action_digest: match &cgroup.action_digest {
            Some(digest) => digest.clone(),
            None => String::new(),
        },
        command: cgroup.command_type,
        kind,
        memory_current: memory_reading.buck2_slice_memory_current,
        memory_swap_current: memory_reading.buck2_slice_memory_swap_current,
        memory_pressure: memory_reading.buck2_slice_memory_pressure,
        daemon_memory_current: memory_reading.daemon_memory_current,
        daemon_swap_current: memory_reading.daemon_memory_swap_current,
        cgroup_memory_current: cgroup.memory_current,
        cgroup_memory_peak: cgroup.memory_peak,
        cgroup_swap_current: cgroup.swap_current,
        cgroup_swap_peak: cgroup.swap_peak,
        frozen_cgroup_count,
        active_cgroup_count,
        ancestor_cgroup_constraints: *ancestor_cgroup_constraints,
    }
}

/// The position in `active` of the control group with the path `path`, or
/// the length of `active` where there is none.
pub open spec fn position_of(active: Seq<ActionCgroup>, path: Seq<char>) -> int
    decreases active.len(),
{
    if active.len() == 0 {
        0
    } else if active[0].path@ == path {
        0
    } else {
        1 + position_of(active.drop_first(), path)
    }
}

pub proof fn lemma_position_of(active: Seq<ActionCgroup>, path: Seq<char>)
    ensures
        0 <= position_of(active, path) <= active.len(),
        position_of(active, path) < active.len() ==> active[position_of(active, path)].path@
            == path,
        forall|j: int| 0 <= j < position_of(active, path) ==> (#[trigger] active[j]).path@ != path,
    decreases active.len(),
{
    if active.len() == 0 {
    } else if active[0].path@ == path {
    } else {
        lemma_position_of(active.drop_first(), path);
        let p = position_of(active.drop_first(), path);
        assert forall|j: int| 0 <= j < 1 + p implies (#[trigger] active[j]).path@ != path by {
            if j > 0 {
                assert(active.drop_first()[j - 1] == active[j]);
            }
        }
    }
}

/// The position of a control group is the first at which its path stands.
pub proof fn lemma_position_of_is(active: Seq<ActionCgroup>, path: Seq<char>, p: int)
    requires
        0 <= p <= active.len(),
        forall|j: int| 0 <= j < p ==> (#[trigger] active[j]).path@ != path,
        p < active.len() ==> active[p].path@ == path,
    ensures
        position_of(active, path) == p,
{
    lemma_position_of(active, path);
    let q = position_of(active, path);
    if q < p {
        assert(active[q].path@ != path);
    } else if q > p {
        assert(active[p].path@ != path);
    }
}

/// Whether the control group at `i` is the one to freeze next: it is not
/// frozen, no control group that is not frozen uses more memory, and of
/// those that use as much it is the last.
pub open spec fn is_largest_running(active: Seq<ActionCgroup>, i: int) -> bool {
    &&& 0 <= i < active.len()
    &&& !active[i].frozen
    &&& forall|j: int|
        0 <= j < active.len() && !(#[trigger] active[j]).frozen ==> active[j].memory_current
            <= active[i].memory_current
    &&& forall|j: int|
        i < j < active.len() && !(#[trigger] active[j]).frozen ==> active[j].memory_current
            < active[i].memory_current
}

/// A command was started for a control group that is in use.
#[derive(Clone, Copy, Debug, PartialEq, Eq, Structural)]
pub struct CgroupExists;

/// A command was finished for a control group that is not in use.
#[derive(Clone, Copy, Debug, PartialEq, Eq, Structural)]
pub struct CgroupNotFound;

pub struct ActionCgroups {
    pub enable_freezing: bool,
    /// The control groups in use, in the order in which their commands
    /// started.
    pub active_cgroups: Vec<ActionCgroup>,
    /// The paths of the control groups that are frozen, in the order in which
    /// they were frozen.
    pub frozen_cgroups: Vec<String>,
    /// The original memory.high value of the slice of the daemon, saved
    /// before it was unset under memory pressure.
    pub original_memory_high: Option<String>,
    /// When a control group was last frozen, in milliseconds.
    pub last_freeze_time: Option<u64>,
    /// When a control group was last unfrozen, in milliseconds.
    pub last_unfreeze_time: Option<u64>,
    /// Total memory of the slice when the last freeze happened. Used to
    /// calculate when we should unfreeze cgroups.
    pub total_memory_during_last_freeze: Option<u64>,
    pub ancestor_cgroup_constraints: Option<AncestorCgroupConstraints>,
}

impl ActionCgroups {
    /// No path is in use twice; the paths that are listed as frozen are
    /// those of the control groups that are frozen, each once; and of a
    /// frozen control group it is known when it was frozen and how much
    /// memory it and the slice used then.
    pub open spec fn wf(&self) -> bool {
        &&& forall|i: int, j: int|
            0 <= i < j < self.active_cgroups@.len() ==> (#[trigger] self.active_cgroups@[i]).path@
                != (#[trigger] self.active_cgroups@[j]).path@
        &&& forall|i: int, j: int|
            0 <= i < j < self.frozen_cgroups@.len() ==> (#[trigger] self.frozen_cgroups@[i])@ != (
            #[trigger] self.frozen_cgroups@[j])@
        &&& forall|k: int|
            0 <= k < self.frozen_cgroups@.len() ==> is_frozen_in(
                self.active_cgroups@,
                (#[trigger] self.frozen_cgroups@[k])@,
            )
        &&& forall|i: int|
            0 <= i < self.active_cgroups@.len() && (#[trigger] self.active_cgroups@[i]).frozen ==> {
                &&& self.active_cgroups@[i].freeze_start is Some
                &&& self.active_cgroups@[i].memory_current_when_frozen is Some
                &&& is_listed(self.frozen_cgroups@, self.active_cgroups@[i].path@)
            }
        &&& self.frozen_cgroups@.len() > 0 ==> self.total_memory_during_last_freeze is Some
    }

    /// How many commands run: the control groups in use that are not frozen.
    pub open spec fn running_actions(&self) -> int {
        if self.active_cgroups@.len() >= self.frozen_cgroups@.len() {
            self.active_cgroups@.len() - self.frozen_cgroups@.len()
        } else {
            0
        }
    }

    pub open spec fn is_active(&self, path: Seq<char>) -> bool {
        position_of(self.active_cgroups@, path) < self.active_cgroups@.len()
    }

    /// The control group with the path `path`; meaningful where there is one.
    pub open spec fn cgroup(&self, path: Seq<char>) -> ActionCgroup {
        self.active_cgroups@[position_of(self.active_cgroups@, path)]
    }

    /// Whether everything but the control groups in use and the list of the
    /// frozen ones is as in `other`.
    pub open spec fn same_settings(&self, other: &Self) -> bool {
        &&& self.enable_freezing == other.enable_freezing
        &&& self.original_memory_high == other.original_memory_high
        &&& self.last_freeze_time == other.last_freeze_time
        &&& self.last_unfreeze_time == other.last_unfreeze_time
        &&& self.total_memory_during_last_freeze == other.total_memory_during_last_freeze
        &&& self.ancestor_cgroup_constraints == other.ancestor_cgroup_constraints
    }

    /// Whether a freeze is due at `now`: freezing is switched on, the last
    /// freeze is long enough ago, and more than one command runs.
    pub open spec fn freeze_is_due(&self, now: u64) -> bool {
        &&& self.enable_freezing
        &&& !(self.last_freeze_time matches Some(t) && elapsed(t, now) < FREEZE_INTERVAL_MS)
        &&& self.running_actions() > 1
    }

    /// Whether an unfreeze is due at `now`: the last unfreeze is long enough
    /// ago, a control group is frozen, and either no command runs, or memory
    /// is not short and its use has fallen by at least as much as the control
    /// group that was frozen first used when it was frozen.
    pub open spec fn unfreeze_is_due(
        &self,
        pressure_state: MemoryPressureState,
        memory_reading: MemoryReading,
        now: u64,
    ) -> bool {
        &&& !(self.last_unfreeze_time matches Some(t) && elapsed(t, now) < UNFREEZE_INTERVAL_MS)
        &&& self.frozen_cgroups@.len() > 0
        &&& {
            let first = self.cgroup(self.frozen_cgroups@[0]@);
            let can_unfreeze_early = memory_reading.buck2_slice_memory_current
                + first.memory_current_when_frozen->0 < self.total_memory_during_last_freeze->0;
            (pressure_state == MemoryPressureState::BelowPressureLimit && can_unfreeze_early)
                || self.running_actions() == 0
        }
    }

    pub fn new(
        enable_freezing: bool,
        ancestor_cgroup_constraints: Option<AncestorCgroupConstraints>,
    ) -> (cgroups: Self)
        ensures
            cgroups.wf(),
            cgroups.enable_freezing == enable_freezing,
            cgroups.ancestor_cgroup_constraints == ancestor_cgroup_constraints,
            cgroups.active_cgroups@.len() == 0,
            cgroups.frozen_cgroups@.len() == 0,
            cgroups.original_memory_high is None,
            cgroups.last_freeze_time is None,
            cgroups.last_unfreeze_time is None,
            cgroups.total_memory_during_last_freeze is None,
    {
        Self {
            enable_freezing,
            active_cgroups: Vec::new(),
            frozen_cgroups: Vec::new(),
            original_memory_high: None,
            last_freeze_time: None,
            last_unfreeze_time: None,
            total_memory_during_last_freeze: None,
            ancestor_cgroup_constraints,
        }
    }

    fn position(&self, path: &String) -> (p: usize)
        ensures
            p == position_of(self.active_cgroups@, path@),
            p <= self.active_cgroups@.len(),
            p < self.active_cgroups@.len() ==> self.active_cgroups@[p as int].path@ == path@,
            forall|j: int| 0 <= j < p ==> (#[trigger] self.active_cgroups@[j]).path@ != path@,
    {
        let mut i: usize = 0;
        while i < self.active_cgroups.len() && !(self.active_cgroups[i].path == *path)
            invariant
                i <= self.active_cgroups@.len(),
                forall|j: int| 0 <= j < i ==> (#[trigger] self.active_cgroups@[j]).path@ != path@,
            decreases self.active_cgroups@.len() - i,
        {
            i = i + 1;
        }
        proof {
            lemma_position_of_is(self.active_cgroups@, path@, i as int);
        }
        i
    }

    /// How many commands run.
    pub fn count_running(&self) -> (n: usize)
        ensures
            n == self.running_actions(),
    {
        if self.active_cgroups.len() >= self.frozen_cgroups.len() {
            self.active_cgroups.len() - self.frozen_cgroups.len()
        } else {
            0
        }
    }

    /// The paths of the control groups in use, for whoever reads their
    /// memory.
    pub fn paths(&self) -> (paths: Vec<String>)
        ensures
            paths@.len() == self.active_cgroups@.len(),
            forall|i: int| 0 <= i < paths@.len() ==> (#[trigger] paths@[i])@
                == self.active_cgroups@[i].path@,
    {
        let mut paths: Vec<String> = Vec::new();
        let mut i: usize = 0;
        while i < self.active_cgroups.len()
            invariant
                i <= self.active_cgroups@.len(),
                paths@.len() == i,
                forall|j: int| 0 <= j < i ==> (#[trigger] paths@[j])@
                    == self.active_cgroups@[j].path@,
            decreases self.active_cgroups@.len() - i,
        {
            paths.push(self.active_cgroups[i].path.clone());
            i = i + 1;
        }
        paths
    }

    /// A command starts in the control group `cgroup_path`, whose memory and
    /// swap were just read. A control group that is in use cannot be used for
    /// a second command: that is an error, and changes nothing.
    #[verifier::rlimit(50)]
    pub fn command_started(
        &mut self,
        cgroup_path: String,
        memory_initial: u64,
        swap_initial: u64,
        command_type: CommandType,
        action_digest: Option<String>,
    ) -> (result: Result<(), CgroupExists>)
        requires
            old(self).wf(),
        ensures
            final(self).wf(),
            old(self).is_active(cgroup_path@) ==> result is Err && *final(self) == *old(self),
            !old(self).is_active(cgroup_path@) ==> {
                &&& result is Ok
                &&& final(self).active_cgroups@.len() == old(self).active_cgroups@.len() + 1
                &&& final(self).active_cgroups@.drop_last() == old(self).active_cgroups@
                &&& final(self).active_cgroups@.last() == (ActionCgroup {
                    path: cgroup_path,
                    memory_initial,
                    memory_current: memory_initial,
                    memory_peak: 0,
                    swap_initial,
                    swap_current: swap_initial,
                    swap_peak: 0,
                    error: None,
                    was_frozen: false,
                    freeze_start: None,
                    freeze_duration: None,
                    frozen: false,
                    command_type,
                    memory_current_when_frozen: None,
                    action_digest,
                })
                &&& final(self).frozen_cgroups == old(self).frozen_cgroups
                &&& final(self).same_settings(old(self))
            },
    {
        let p = self.position(&cgroup_path);
        if p < self.active_cgroups.len() {
            return Err(CgroupExists);
        }
        self.active_cgroups.push(
            ActionCgroup {
                path: cgroup_path,
                memory_initial,
                memory_current: memory_initial,
                memory_peak: 0,
                swap_initial,
                swap_current: swap_initial,
                swap_peak: 0,
                error: None,
                was_frozen: false,
                freeze_start: None,
                freeze_duration: None,
                frozen: false,
                command_type,
                memory_current_when_frozen: None,
                action_digest,
            },
        );
        proof {
            let before = old(self).active_cgroups@;
            let after = self.active_cgroups@;
            assert(after.drop_last() =~= before);
            assert forall|k: int| 0 <= k < self.frozen_cgroups@.len() implies is_frozen_in(
                after,
                (#[trigger] self.frozen_cgroups@[k])@,
            ) by {
                let path = self.frozen_cgroups@[k]@;
                assert(is_frozen_in(before, path));
                let i = choose|i: int|
                    0 <= i < before.len() && (#[trigger] before[i]).path@ == path
                        && before[i].frozen;
                assert(after[i] == before[i]);
            }
            assert forall|i: int| 0 <= i < after.len() && (#[trigger] after[i]).frozen implies {
                &&& after[i].freeze_start is Some
                &&& after[i].memory_current_when_frozen is Some
                &&& is_listed(self.frozen_cgroups@, after[i].path@)
            } by {
                assert(after[i] == before[i]);
            }
            assert forall|i: int, j: int| 0 <= i < j < after.len() implies (#[trigger] after[i]).path@
                != (#[trigger] after[j]).path@ by {
                if j < before.len() {
                    assert(after[i] == before[i] && after[j] == before[j]);
                } else {
                    assert(after[i] == before[i]);
                }
            }
        }
        Ok(())
    }

    /// The command of the control group `cgroup_path` is done: the control
    /// group is no longer in use. Gives what is known of it, and says whether
    /// it is frozen and has to be unfrozen for the next command. A control
    /// group that is not in use is an error, and changes nothing.
    #[verifier::rlimit(50)]
    pub fn command_finished(&mut self, cgroup_path: &String) -> (result: Result<
        (ActionCgroupResult, bool),
        CgroupNotFound,
    >)
        requires
            old(self).wf(),
        ensures
            final(self).wf(),
            final(self).same_settings(old(self)),
            !old(self).is_active(cgroup_path@) ==> result is Err && *final(self) == *old(self),
            old(self).is_active(cgroup_path@) ==> {
                let p = position_of(old(self).active_cgroups@, cgroup_path@);
                let cgroup = old(self).active_cgroups@[p];
                &&& result matches Ok(done)
                &&& done.0.memory_peak == Some(cgroup.memory_peak)
                &&& done.0.swap_peak == Some(cgroup.swap_peak)
                &&& done.0.error == cgroup.error
                &&& done.0.was_frozen == cgroup.was_frozen
                &&& done.0.freeze_duration == cgroup.freeze_duration
                &&& done.1 == cgroup.frozen
                &&& final(self).active_cgroups@ == old(self).active_cgroups@.remove(p)
                &&& !final(self).is_active(cgroup_path@)
                &&& !is_listed(final(self).frozen_cgroups@, cgroup_path@)
                &&& !cgroup.frozen ==> final(self).frozen_cgroups == old(self).frozen_cgroups
                &&& cgroup.frozen ==> final(self).frozen_cgroups@.len() + 1 == old(
                    self,
                ).frozen_cgroups@.len()
            },
    {
        let p = self.position(cgroup_path);
        if p >= self.active_cgroups.len() {
            return Err(CgroupNotFound);
        }
        let ghost before = self.active_cgroups@;
        let ghost listed = self.frozen_cgroups@;
        let cgroup = self.active_cgroups.remove(p);
        let ghost after = self.active_cgroups@;
        let frozen = cgroup.frozen;
        // Command can finish after freezing a cgroup either because freezing may take some time
        // or because we started freezing after the command finished.
        // In this case we need to unfreeze the cgroup for the next command.
        if frozen {
            let mut k: usize = 0;
            while k < self.frozen_cgroups.len() && !(self.frozen_cgroups[k] == *cgroup_path)
                invariant
                    k <= self.frozen_cgroups@.len(),
                    self.frozen_cgroups@ == listed,
                    forall|j: int| 0 <= j < k ==> (#[trigger] listed[j])@ != cgroup_path@,
                decreases self.frozen_cgroups@.len() - k,
            {
                k = k + 1;
            }
            proof {
                assert(is_listed(listed, cgroup_path@));
            }
            self.frozen_cgroups.remove(k);
        } else {
            proof {
                if is_listed(listed, cgroup_path@) {
                    let k = choose|k: int| 0 <= k < listed.len() && (#[trigger] listed[k])@
                        == cgroup_path@;
                    assert(is_frozen_in(before, listed[k]@));
                    let i = choose|i: int|
                        0 <= i < before.len() && (#[trigger] before[i]).path@ == listed[k]@
                            && before[i].frozen;
                    assert(i == p);
                }
            }
        }
        proof {
            let now = self.frozen_cgroups@;
            assert forall|i: int| 0 <= i < after.len() implies (#[trigger] after[i]).path@
                != cgroup_path@ by {
                if i < p {
                    assert(after[i] == before[i]);
                } else {
                    assert(after[i] == before[i + 1]);
                }
            }
            lemma_position_of_is(after, cgroup_path@, after.len() as int);
            assert forall|i: int, j: int| 0 <= i < j < after.len() implies (#[trigger] after[i]).path@
                != (#[trigger] after[j]).path@ by {
                let a = if i < p {
                    i
                } else {
                    i + 1
                };
                let b = if j < p {
                    j
                } else {
                    j + 1
                };
                assert(after[i] == before[a] && after[j] == before[b]);
            }
            assert forall|k: int| 0 <= k < now.len() implies (#[trigger] now[k])@
                != cgroup_path@ && listed.contains(now[k]) by {
                if !frozen {
                    assert(now[k] == listed[k]);
                }
            }
            assert forall|k: int| 0 <= k < now.len() implies is_frozen_in(
                after,
                (#[trigger] now[k])@,
            ) by {
                let path = now[k]@;
                let c = choose|c: int| 0 <= c < listed.len() && listed[c] == now[k];
                assert(is_frozen_in(before, listed[c]@));
                let i = choose|i: int|
                    0 <= i < before.len() && (#[trigger] before[i]).path@ == path
                        && before[i].frozen;
                assert(i != p);
                if i < p {
                    assert(after[i] == before[i]);
                } else {
                    assert(after[i - 1] == before[i]);
                }
            }
            assert forall|i: int| 0 <= i < after.len() && (#[trigger] after[i]).frozen implies {
                &&& after[i].freeze_start is Some
                &&& after[i].memory_current_when_frozen is Some
                &&& is_listed(now, after[i].path@)
            } by {
                let a = if i < p {
                    i
                } else {
                    i + 1
                };
                assert(after[i] == before[a]);
                assert(is_listed(listed, before[a].path@));
                let c = choose|c: int| 0 <= c < listed.len() && (#[trigger] listed[c])@
                    == before[a].path@;
                if frozen {
                    let r = position_in(listed, cgroup_path@);
                    if c < r {
                        assert(now[c] == listed[c]);
                    } else {
                        assert(now[c - 1] == listed[c]);
                    }
                } else {
                    assert(now[c] == listed[c]);
                }
            }
            assert(!is_listed(now, cgroup_path@));
        }
        Ok((ActionCgroupResult::from_info(cgroup), frozen))
    }

    /// Notes a reading of the memory and the swap of the control group
    /// `cgroup_path`. Says whether the control group is in use; if not,
    /// nothing is changed.
    pub fn record_reading(
        &mut self,
        cgroup_path: &String,
        memory_current: u64,
        swap_current: u64,
    ) -> (found: bool)
        requires
            old(self).wf(),
        ensures
            final(self).wf(),
            final(self).same_settings(old(self)),
            final(self).frozen_cgroups == old(self).frozen_cgroups,
            found == old(self).is_active(cgroup_path@),
            !found ==> final(self).active_cgroups == old(self).active_cgroups,
            found ==> final(self).active_cgroups@ == old(self).active_cgroups@.update(
                position_of(old(self).active_cgroups@, cgroup_path@),
                old(self).cgroup(cgroup_path@).with_reading(memory_current, swap_current),
            ),
    {
        let p = self.position(cgroup_path);
        if p >= self.active_cgroups.len() {
            return false;
        }
        let ghost before = self.active_cgroups@;
        let cgroup = &mut self.active_cgroups[p];
        // Need to continuously poll memory.current when using a cgroup pool because we can't reset memory.peak
        // in kernels older than 6.12.
        cgroup.memory_current = memory_current;
        if cgroup.memory_current >= cgroup.memory_initial {
            let memory_delta = cgroup.memory_current - cgroup.memory_initial;
            if memory_delta > cgroup.memory_peak {
                cgroup.memory_peak = memory_delta;
            }
        }
        cgroup.swap_current = swap_current;
        if cgroup.swap_current >= cgroup.swap_initial {
            let swap_delta = cgroup.swap_current - cgroup.swap_initial;
            if swap_delta > cgroup.swap_peak {
                cgroup.swap_peak = swap_delta;
            }
        }
        proof {
            let after = self.active_cgroups@;
            assert(after =~= before.update(
                p as int,
                before[p as int].with_reading(memory_current, swap_current),
            ));
            lemma_same_paths_keep_wf(*old(self), *self);
        }
        true
    }

    /// Notes that the control group `cgroup_path` could not be read or
    /// frozen. Says whether the control group is in use; if not, nothing is
    /// changed.
    pub fn record_error(&mut self, cgroup_path: &String, e: Error) -> (found: bool)
        requires
            old(self).wf(),
        ensures
            final(self).wf(),
            final(self).same_settings(old(self)),
            final(self).frozen_cgroups == old(self).frozen_cgroups,
            found == old(self).is_active(cgroup_path@),
            !found ==> final(self).active_cgroups == old(self).active_cgroups,
            found ==> final(self).active_cgroups@ == old(self).active_cgroups@.update(
                position_of(old(self).active_cgroups@, cgroup_path@),
                (ActionCgroup { error: Some(e), ..old(self).cgroup(cgroup_path@) }),
            ),
    {
        let p = self.position(cgroup_path);
        if p >= self.active_cgroups.len() {
            return false;
        }
        let ghost before = self.active_cgroups@;
        let cgroup = &mut self.active_cgroups[p];
        cgroup.error = Some(e);
        proof {
            let after = self.active_cgroups@;
            assert(after =~= before.update(
                p as int,
                (ActionCgroup { error: Some(e), ..before[p as int] }),
            ));
            lemma_same_paths_keep_wf(*old(self), *self);
        }
        true
    }

    /// Decides whether a control group is to be frozen, and which: the one
    /// that uses the most memory of those that are not frozen.
    ///
    /// At most one control group is frozen per interval, since what a freeze
    /// does to memory shows only after a while, and the last running command
    /// is never frozen.
    #[verifier::rlimit(50)]
    pub fn maybe_freeze(&self, now: u64) -> (candidate: Option<String>)
        requires
            self.wf(),
        ensures
            candidate is Some <==> self.freeze_is_due(now) && exists|i: int|
                0 <= i < self.active_cgroups@.len() && !(#[trigger] self.active_cgroups@[i]).frozen,
            candidate matches Some(path) ==> self.is_active(path@) && is_largest_running(
                self.active_cgroups@,
                position_of(self.active_cgroups@, path@),
            ),
    {
        // We freeze at most 1 action every second since memory changes of previous freezes will take a few seconds to take effect
        // This maybe not be enough, but we don't want to wait too long that we encounter OOMs
        match self.last_freeze_time {
            Some(t) => {
                if now < t || now - t < FREEZE_INTERVAL_MS {
                    return None;
                }
            },
            None => {},
        }
        let running_actions = self.count_running();
        // Don't freeze if there's only one action
        if running_actions <= 1 {
            return None;
        }
        let mut largest: Option<usize> = None;
        let mut i: usize = 0;
        while i < self.active_cgroups.len()
            invariant
                i <= self.active_cgroups@.len(),
                largest is None ==> forall|j: int|
                    0 <= j < i ==> (#[trigger] self.active_cgroups@[j]).frozen,
                largest matches Some(l) ==> {
                    &&& l < i
                    &&& !self.active_cgroups@[l as int].frozen
                    &&& forall|j: int|
                        0 <= j < i && !(#[trigger] self.active_cgroups@[j]).frozen
                            ==> self.active_cgroups@[j].memory_current
                            <= self.active_cgroups@[l as int].memory_current
                    &&& forall|j: int|
                        l < j < i && !(#[trigger] self.active_cgroups@[j]).frozen
                            ==> self.active_cgroups@[j].memory_current
                            < self.active_cgroups@[l as int].memory_current
                },
            decreases self.active_cgroups@.len() - i,
        {
            if !self.active_cgroups[i].frozen {
                largest = match largest {
                    Some(l) => if self.active_cgroups[i].memory_current
                        >= self.active_cgroups[l].memory_current {
                        Some(i)
                    } else {
                        Some(l)
                    },
                    None => Some(i),
                };
            }
            i = i + 1;
        }
        match largest {
            Some(l) => {
                if self.enable_freezing {
                    proof {
                        let path = self.active_cgroups@[l as int].path@;
                        assert forall|j: int| 0 <= j < l implies (
                        #[trigger] self.active_cgroups@[j]).path@ != path by {}
                        lemma_position_of_is(self.active_cgroups@, path, l as int);
                    }
                    Some(self.active_cgroups[l].path.clone())
                } else {
                    None
                }
            },
            None => None,
        }
    }

    /// The control group `cgroup_path` was frozen at `now`: it is listed as
    /// frozen, and what the control group and the slice used is noted. Gives
    /// the report of the freeze. Nothing is changed, and nothing reported, if
    /// the control group is not in use or is frozen already.
    #[verifier::rlimit(50)]
    pub fn freeze_succeeded(
        &mut self,
        cgroup_path: &String,
        memory_reading: &MemoryReading,
        now: u64,
    ) -> (event: Option<ResourceControlEvents>)
        requires
            old(self).wf(),
        ensures
            final(self).wf(),
            event is Some <==> old(self).is_active(cgroup_path@) && !old(self).cgroup(
                cgroup_path@,
            ).frozen,
            event is None ==> *final(self) == *old(self),
            event matches Some(report) ==> {
                let p = position_of(old(self).active_cgroups@, cgroup_path@);
                let cgroup = old(self).active_cgroups@[p].when_frozen(now);
                &&& final(self).active_cgroups@ == old(self).active_cgroups@.update(p, cgroup)
                &&& final(self).frozen_cgroups@.len() == old(self).frozen_cgroups@.len() + 1
                &&& final(self).frozen_cgroups@.drop_last() == old(self).frozen_cgroups@
                &&& final(self).frozen_cgroups@.last()@ == cgroup_path@
                &&& final(self).total_memory_during_last_freeze == Some(
                    memory_reading.buck2_slice_memory_current,
                )
                &&& final(self).last_freeze_time == Some(now)
                &&& final(self).last_unfreeze_time == old(self).last_unfreeze_time
                &&& final(self).enable_freezing == old(self).enable_freezing
                &&& final(self).original_memory_high == old(self).original_memory_high
                &&& final(self).ancestor_cgroup_constraints == old(self).ancestor_cgroup_constraints
                &&& reports(
                    report,
                    *memory_reading,
                    ResourceControlKind::Freeze,
                    cgroup,
                    final(self).frozen_cgroups@.len() as u64,
                    final(self).active_cgroups@.len() as u64,
                    old(self).ancestor_cgroup_constraints,
                )
            },
    {
        let p = self.position(cgroup_path);
        if p >= self.active_cgroups.len() || self.active_cgroups[p].frozen {
            return None;
        }
        let ghost before = self.active_cgroups@;
        let ghost listed = self.frozen_cgroups@;
        let cgroup = &mut self.active_cgroups[p];
        cgroup.freeze_start = Some(now);
        cgroup.frozen = true;
        cgroup.memory_current_when_frozen = Some(cgroup.memory_current);
        self.total_memory_during_last_freeze = Some(memory_reading.buck2_slice_memory_current);
        self.last_freeze_time = Some(now);
        self.frozen_cgroups.push(cgroup_path.clone());
        proof {
            let after = self.active_cgroups@;
            let now_listed = self.frozen_cgroups@;
            assert(after =~= before.update(p as int, before[p as int].when_frozen(now)));
            assert(now_listed.drop_last() =~= listed);
            assert forall|i: int, j: int| 0 <= i < j < after.len() implies (#[trigger] after[i]).path@
                != (#[trigger] after[j]).path@ by {
                assert(after[i].path@ == before[i].path@ && after[j].path@ == before[j].path@);
            }
            assert(!is_listed(listed, cgroup_path@)) by {
                if is_listed(listed, cgroup_path@) {
                    let k = choose|k: int| 0 <= k < listed.len() && (#[trigger] listed[k])@
                        == cgroup_path@;
                    assert(is_frozen_in(before, listed[k]@));
                    let i = choose|i: int|
                        0 <= i < before.len() && (#[trigger] before[i]).path@ == listed[k]@
                            && before[i].frozen;
                    assert(i == p);
                }
            }
            assert forall|i: int, j: int| 0 <= i < j < now_listed.len() implies (
            #[trigger] now_listed[i])@ != (#[trigger] now_listed[j])@ by {
                assert(now_listed[i] == listed[i]);
                if j < listed.len() {
                    assert(now_listed[j] == listed[j]);
                }
            }
            assert forall|k: int| 0 <= k < now_listed.len() implies is_frozen_in(
                after,
                (#[trigger] now_listed[k])@,
            ) by {
                if k < listed.len() {
                    assert(now_listed[k] == listed[k]);
                    assert(is_frozen_in(before, listed[k]@));
                    let i = choose|i: int|
                        0 <= i < before.len() && (#[trigger] before[i]).path@ == listed[k]@
                            && before[i].frozen;
                    assert(after[i].path@ == before[i].path@ && after[i].frozen);
                } else {
                    assert(after[p as int].path@ == cgroup_path@ && after[p as int].frozen);
                }
            }
            assert forall|i: int| 0 <= i < after.len() && (#[trigger] after[i]).frozen implies {
                &&& after[i].freeze_start is Some
                &&& after[i].memory_current_when_frozen is Some
                &&& is_listed(now_listed, after[i].path@)
            } by {
                if i == p {
                    assert(now_listed[listed.len() as int]@ == cgroup_path@);
                } else {
                    assert(after[i] == before[i]);
                    let k = choose|k: int| 0 <= k < listed.len() && (#[trigger] listed[k])@
                        == before[i].path@;
                    assert(now_listed[k] == listed[k]);
                }
            }
        }
        let frozen_count = self.frozen_cgroups.len() as u64;
        let active_count = self.active_cgroups.len() as u64;
        Some(
            emit_resource_control_event(
                memory_reading,
                ResourceControlKind::Freeze,
                &self.active_cgroups[p],
                frozen_count,
                active_count,
                &self.ancestor_cgroup_constraints,
            ),
        )
    }

    /// Whether the limit on the memory of the slice has to be lifted: memory
    /// is short, control groups are frozen, and the limit was not lifted yet.
    /// While actions are frozen the limit would only slow down what still
    /// runs.
    pub fn needs_unset_memory_high(&self, pressure_state: MemoryPressureState) -> (b: bool)
        ensures
            b == (pressure_state == MemoryPressureState::AbovePressureLimit
                && self.original_memory_high is None && self.frozen_cgroups@.len() > 0),
    {
        match pressure_state {
            MemoryPressureState::AbovePressureLimit => self.original_memory_high.is_none()
                && self.frozen_cgroups.len() > 0,
            MemoryPressureState::BelowPressureLimit => false,
        }
    }

    /// The limit on the memory of the slice was lifted; `original` is what
    /// it was.
    pub fn memory_high_unset(&mut self, original: String)
        ensures
            final(self).original_memory_high == Some(original),
            final(self).active_cgroups == old(self).active_cgroups,
            final(self).frozen_cgroups == old(self).frozen_cgroups,
            final(self).enable_freezing == old(self).enable_freezing,
            final(self).last_freeze_time == old(self).last_freeze_time,
            final(self).last_unfreeze_time == old(self).last_unfreeze_time,
            final(self).total_memory_during_last_freeze == old(self).total_memory_during_last_freeze,
            final(self).ancestor_cgroup_constraints == old(self).ancestor_cgroup_constraints,
            old(self).wf() ==> final(self).wf(),
    {
        self.original_memory_high = Some(original);
    }

    /// Hands out the limit on the memory of the slice that is to be set
    /// again, if it is to be: the limit was lifted, nothing is frozen any
    /// more, and memory is not short. With the limit back in place, memory
    /// pressure is noticed earlier.
    pub fn take_memory_high_to_restore(
        &mut self,
        pressure_state: MemoryPressureState,
    ) -> (original: Option<String>)
        ensures
            final(self).active_cgroups == old(self).active_cgroups,
            final(self).frozen_cgroups == old(self).frozen_cgroups,
            final(self).enable_freezing == old(self).enable_freezing,
            final(self).last_freeze_time == old(self).last_freeze_time,
            final(self).last_unfreeze_time == old(self).last_unfreeze_time,
            final(self).total_memory_during_last_freeze == old(self).total_memory_during_last_freeze,
            final(self).ancestor_cgroup_constraints == old(self).ancestor_cgroup_constraints,
            old(self).wf() ==> final(self).wf(),
            old(self).original_memory_high is Some && old(self).frozen_cgroups@.len() == 0
                && pressure_state == MemoryPressureState::BelowPressureLimit ==> {
                &&& original == old(self).original_memory_high
                &&& final(self).original_memory_high is None
            },
            !(old(self).original_memory_high is Some && old(self).frozen_cgroups@.len() == 0
                && pressure_state == MemoryPressureState::BelowPressureLimit) ==> {
                &&& original is None
                &&& final(self).original_memory_high == old(self).original_memory_high
            },
    {
        let below = match pressure_state {
            MemoryPressureState::BelowPressureLimit => true,
            MemoryPressureState::AbovePressureLimit => false,
        };
        if self.original_memory_high.is_some() && self.frozen_cgroups.len() == 0 && below {
            let mut original: Option<String> = None;
            core::mem::swap(&mut self.original_memory_high, &mut original);
            original
        } else {
            None
        }
    }

    /// Decides whether a control group is to be unfrozen, and unfreezes the
    /// one that was frozen first if so. Gives its path, for the caller to
    /// carry the unfreeze out, and the report of the unfreeze.
    ///
    /// At most one control group is unfrozen per interval. A control group is
    /// unfrozen when memory is not short and its use has fallen far enough,
    /// and in any case when no command runs, so that the build cannot get
    /// stuck.
    #[verifier::rlimit(50)]
    pub fn maybe_unfreeze(
        &mut self,
        pressure_state: MemoryPressureState,
        memory_reading: &MemoryReading,
        now: u64,
    ) -> (unfrozen: Option<(String, ResourceControlEvents)>)
        requires
            old(self).wf(),
        ensures
            final(self).wf(),
            unfrozen is Some <==> old(self).unfreeze_is_due(pressure_state, *memory_reading, now),
            unfrozen is None ==> *final(self) == *old(self),
            unfrozen matches Some(done) ==> {
                let path = old(self).frozen_cgroups@[0]@;
                let p = position_of(old(self).active_cgroups@, path);
                let cgroup = old(self).active_cgroups@[p].when_unfrozen(now);
                &&& done.0@ == path
                &&& p < old(self).active_cgroups@.len()
                &&& final(self).active_cgroups@ == old(self).active_cgroups@.update(p, cgroup)
                &&& final(self).frozen_cgroups@ == old(self).frozen_cgroups@.drop_first()
                &&& final(self).last_unfreeze_time == Some(now)
                &&& final(self).last_freeze_time == old(self).last_freeze_time
                &&& final(self).total_memory_during_last_freeze == old(
                    self,
                ).total_memory_during_last_freeze
                &&& final(self).enable_freezing == old(self).enable_freezing
                &&& final(self).original_memory_high == old(self).original_memory_high
                &&& final(self).ancestor_cgroup_constraints == old(self).ancestor_cgroup_constraints
                &&& reports(
                    done.1,
                    *memory_reading,
                    ResourceControlKind::Unfreeze,
                    cgroup,
                    final(self).frozen_cgroups@.len() as u64,
                    final(self).active_cgroups@.len() as u64,
                    old(self).ancestor_cgroup_constraints,
                )
            },
    {
        // We unfreeze at most 1 action every 3 seconds since memory changes of previous freezes will take several seconds
        // to take effect. This ensures that we don't unfreeze too quickly
        match self.last_unfreeze_time {
            Some(t) => {
                if now < t || now - t < UNFREEZE_INTERVAL_MS {
                    return None;
                }
            },
            None => {},
        }
        if self.frozen_cgroups.len() == 0 {
            return None;
        }
        let active_cgroups_count = self.active_cgroups.len();
        let running_actions = self.count_running();
        let ghost before = self.active_cgroups@;
        let ghost listed = self.frozen_cgroups@;
        let p = self.position(&self.frozen_cgroups[0]);
        proof {
            assert(is_frozen_in(before, listed[0]@));
            let i = choose|i: int|
                0 <= i < before.len() && (#[trigger] before[i]).path@ == listed[0]@
                    && before[i].frozen;
            assert(i == p);
        }
        let below = match pressure_state {
            MemoryPressureState::BelowPressureLimit => true,
            MemoryPressureState::AbovePressureLimit => false,
        };
        let should_unfreeze = {
            let frozen_cgroup = &self.active_cgroups[p];
            let memory_when_frozen = match frozen_cgroup.memory_current_when_frozen {
                Some(memory) => memory,
                None => 0,
            };
            let total_memory_during_last_freeze = match self.total_memory_during_last_freeze {
                Some(memory) => memory,
                None => 0,
            };
            // If the current memory use is less than the sum of memory of cgroup at the time it was frozen +
            // total memory when we last froze an action, we can start unfreezing earlier
            let can_unfreeze_early = memory_when_frozen <= total_memory_during_last_freeze
                && memory_reading.buck2_slice_memory_current < total_memory_during_last_freeze
                - memory_when_frozen;
            // If we can unfreeze early or if there are no actions running, start unfreezing.
            // We unfreeze even if there are no actions running to prevent the build from getting stuck
            (below && can_unfreeze_early) || running_actions == 0
        };
        if !should_unfreeze {
            return None;
        }
        let path = self.frozen_cgroups.remove(0);
        let frozen_cgroup = &mut self.active_cgroups[p];
        frozen_cgroup.was_frozen = true;
        frozen_cgroup.frozen = false;
        let freeze_elapsed = match frozen_cgroup.freeze_start {
            Some(start) => if now >= start {
                now - start
            } else {
                0
            },
            None => 0,
        };
        let so_far = match frozen_cgroup.freeze_duration {
            Some(duration) => duration,
            None => 0,
        };
        frozen_cgroup.freeze_duration = Some(
            if freeze_elapsed <= u64::MAX - so_far {
                so_far + freeze_elapsed
            } else {
                u64::MAX
            },
        );
        self.last_unfreeze_time = Some(now);
        proof {
            let after = self.active_cgroups@;
            let now_listed = self.frozen_cgroups@;
            assert(after =~= before.update(p as int, before[p as int].when_unfrozen(now)));
            assert(now_listed =~= listed.drop_first());
            assert forall|i: int, j: int| 0 <= i < j < after.len() implies (#[trigger] after[i]).path@
                != (#[trigger] after[j]).path@ by {
                assert(after[i].path@ == before[i].path@ && after[j].path@ == before[j].path@);
            }
            assert forall|i: int, j: int| 0 <= i < j < now_listed.len() implies (
            #[trigger] now_listed[i])@ != (#[trigger] now_listed[j])@ by {
                assert(now_listed[i] == listed[i + 1] && now_listed[j] == listed[j + 1]);
            }
            assert forall|k: int| 0 <= k < now_listed.len() implies is_frozen_in(
                after,
                (#[trigger] now_listed[k])@,
            ) by {
                assert(now_listed[k] == listed[k + 1]);
                assert(listed[k + 1]@ != listed[0]@);
                assert(is_frozen_in(before, listed[k + 1]@));
                let i = choose|i: int|
                    0 <= i < before.len() && (#[trigger] before[i]).path@ == listed[k + 1]@
                        && before[i].frozen;
                assert(i != p);
                assert(after[i] == before[i]);
            }
            assert forall|i: int| 0 <= i < after.len() && (#[trigger] after[i]).frozen implies {
                &&& after[i].freeze_start is Some
                &&& after[i].memory_current_when_frozen is Some
                &&& is_listed(now_listed, after[i].path@)
            } by {
                assert(i != p);
                assert(after[i] == before[i]);
                let k = choose|k: int| 0 <= k < listed.len() && (#[trigger] listed[k])@
                    == before[i].path@;
                assert(k != 0);
                assert(now_listed[k - 1] == listed[k]);
            }
        }
        let frozen_count = self.frozen_cgroups.len() as u64;
        let event = emit_resource_control_event(
            memory_reading,
            ResourceControlKind::Unfreeze,
            &self.active_cgroups[p],
            frozen_count,
            active_cgroups_count as u64,
            &self.ancestor_cgroup_constraints,
        );
        Some((path, event))
    }
}

/// Changes to control groups that leave their paths and whether they are
/// frozen alone keep the whole well formed.
pub proof fn lemma_same_paths_keep_wf(before: ActionCgroups, after: ActionCgroups)
    requires
        before.wf(),
        after.frozen_cgroups == before.frozen_cgroups,
        after.total_memory_during_last_freeze == before.total_memory_during_last_freeze,
        after.active_cgroups@.len() == before.active_cgroups@.len(),
        forall|i: int|
            0 <= i < before.active_cgroups@.len() ==> {
                &&& (#[trigger] after.active_cgroups@[i]).path@ == before.active_cgroups@[i].path@
                &&& after.active_cgroups@[i].frozen == before.active_cgroups@[i].frozen
                &&& after.active_cgroups@[i].freeze_start == before.active_cgroups@[i].freeze_start
                &&& after.active_cgroups@[i].memory_current_when_frozen
                    == before.active_cgroups@[i].memory_current_when_frozen
            },
    ensures
        after.wf(),
{
    let a = after.active_cgroups@;
    let b = before.active_cgroups@;
    assert forall|i: int, j: int| 0 <= i < j < a.len() implies (#[trigger] a[i]).path@ != (
    #[trigger] a[j]).path@ by {
        assert(a[i].path@ == b[i].path@ && a[j].path@ == b[j].path@);
    }
    assert forall|k: int| 0 <= k < after.frozen_cgroups@.len() implies is_frozen_in(
        a,
        (#[trigger] after.frozen_cgroups@[k])@,
    ) by {
        assert(is_frozen_in(b, before.frozen_cgroups@[k]@));
        let i = choose|i: int|
            0 <= i < b.len() && (#[trigger] b[i]).path@ == before.frozen_cgroups@[k]@
                && b[i].frozen;
        assert(a[i].path@ == b[i].path@ && a[i].frozen);
    }
    assert forall|i: int| 0 <= i < a.len() && (#[trigger] a[i]).frozen implies {
        &&& a[i].freeze_start is Some
        &&& a[i].memory_current_when_frozen is Some
        &&& is_listed(after.frozen_cgroups@, a[i].path@)
    } by {
        assert(b[i].frozen);
    }
}

/// Whether the control group with the path `path` is in use and frozen.
pub open spec fn is_frozen_in(active: Seq<ActionCgroup>, path: Seq<char>) -> bool {
    exists|i: int| 0 <= i < active.len() && (#[trigger] active[i]).path@ == path && active[i].frozen
}

/// Whether `path` is among the paths listed.
pub open spec fn is_listed(listed: Seq<String>, path: Seq<char>) -> bool {
    exists|k: int| 0 <= k < listed.len() && (#[trigger] listed[k])@ == path
}

/// Some position of `path` in the list.
pub open spec fn position_in(listed: Seq<String>, path: Seq<char>) -> int {
    choose|k: int| 0 <= k < listed.len() && (#[trigger] listed[k])@ == path
}

} // verus!
