//! The answers of the remote execution service, as plain data.

use std::time::Duration;

use vstd::prelude::*;

use crate::re_grpc::digest::TDigest;
use crate::re_grpc::error::TCode;

verus! {

#[derive(Clone, Default)]
pub struct TTimestamp {
    pub seconds: i64,
    pub nanos: i32,
}

/// `std::time::Duration::new`: the duration of `secs` whole seconds and
/// `nanos` nanoseconds more.
pub uninterp spec fn duration_new(secs: u64, nanos: u32) -> Duration;

/// `std::time::Duration::new`. It carries a billion nanoseconds or more over
/// into the seconds and panics if the seconds then leave their range, which
/// the caller has to exclude.
#[verifier::external_body]
fn new_duration(secs: u64, nanos: u32) -> (duration: Duration)
    requires
        secs + nanos / 1_000_000_000 <= u64::MAX,
    ensures
        duration == duration_new(secs, nanos),
{
    Duration::new(secs, nanos)
}

impl TTimestamp {
    /// The whole seconds of the time from `earlier` to this timestamp, zero
    /// if there is no such time.
    pub open spec fn seconds_since(&self, earlier: &TTimestamp) -> u64 {
        let seconds = self.seconds - earlier.seconds;
        let nanos = self.nanos - earlier.nanos;
        let carried = if seconds < 0 && nanos > 0 {
            seconds + 1
        } else if seconds > 0 && nanos < 0 {
            seconds - 1
        } else {
            seconds
        };
        if carried < 0 {
            0
        } else {
            carried as u64
        }
    }

    /// The nanoseconds beyond the whole seconds of the time from `earlier` to
    /// this timestamp, zero if there is no such time.
    pub open spec fn nanos_since(&self, earlier: &TTimestamp) -> u32 {
        let seconds = self.seconds - earlier.seconds;
        let nanos = self.nanos - earlier.nanos;
        let carried = if seconds < 0 && nanos > 0 {
            nanos - 1000000000
        } else if seconds > 0 && nanos < 0 {
            nanos + 1000000000
        } else {
            nanos
        };
        if carried < 0 {
            0
        } else {
            carried as u32
        }
    }

    /// Whether the nanoseconds are less than a second.
    pub open spec fn normalized(&self) -> bool {
        0 <= self.nanos < 1000000000
    }

    /// The timestamp in nanoseconds.
    pub open spec fn total_nanos(&self) -> int {
        self.seconds * 1000000000 + self.nanos
    }

    /// Returns the amount of time elapsed from another timestamp to this one,
    /// or zero duration if that timestamp is later than this one.
    pub fn saturating_duration_since(&self, earlier: &TTimestamp) -> (duration: Duration)
        requires
            i64::MIN <= self.seconds - earlier.seconds <= i64::MAX,
            i32::MIN <= self.nanos - earlier.nanos <= i32::MAX,
        ensures
            duration == duration_new(self.seconds_since(earlier), self.nanos_since(earlier)),
    {
        let mut seconds: i64 = self.seconds - earlier.seconds;
        let mut nanos: i32 = self.nanos - earlier.nanos;
        if seconds < 0 && nanos > 0 {
            seconds += 1;
            nanos -= 1000000000;
        } else if seconds > 0 && nanos < 0 {
            seconds -= 1;
            nanos += 1000000000;
        }
        let secs: u64 = if seconds < 0 {
            0
        } else {
            seconds as u64
        };
        let subsec: u32 = if nanos < 0 {
            0
        } else {
            nanos as u32
        };
        new_duration(secs, subsec)
    }

    pub fn unix_epoch() -> (epoch: Self)
        ensures
            epoch.seconds == 0,
            epoch.nanos == 0,
    {
        Self { seconds: 0, nanos: 0 }
    }
}

/// Between two timestamps whose nanoseconds are less than a second, the
/// time elapsed is their difference, and zero where the other one is later.
pub proof fn lemma_duration_is_the_difference(later: TTimestamp, earlier: TTimestamp)
    requires
        later.normalized(),
        earlier.normalized(),
        i64::MIN <= later.seconds - earlier.seconds <= i64::MAX,
    ensures
        later.nanos_since(&earlier) < 1000000000,
        later.total_nanos() >= earlier.total_nanos() ==> later.seconds_since(&earlier) * 1000000000
            + later.nanos_since(&earlier) == later.total_nanos() - earlier.total_nanos(),
        later.total_nanos() <= earlier.total_nanos() ==> later.seconds_since(&earlier) == 0
            && later.nanos_since(&earlier) == 0,
{
}

#[derive(Clone, Default)]
pub struct TExecutedActionMetadata {
    pub worker: String,
    pub queued_timestamp: TTimestamp,
    pub worker_start_timestamp: TTimestamp,
    pub worker_completed_timestamp: TTimestamp,
    pub input_fetch_start_timestamp: TTimestamp,
    pub input_fetch_completed_timestamp: TTimestamp,
    pub execution_start_timestamp: TTimestamp,
    pub execution_completed_timestamp: TTimestamp,
    pub output_upload_start_timestamp: TTimestamp,
    pub output_upload_completed_timestamp: TTimestamp,
    pub execution_dir: String,
    pub input_analyzing_start_timestamp: TTimestamp,
    pub input_analyzing_completed_timestamp: TTimestamp,
    pub execution_attempts: i32,
    pub last_queued_timestamp: TTimestamp,
    pub instruction_counts: TPerfCount,
    pub auxiliary_metadata: Vec<TAny>,
    pub max_used_mem: i64,
}

#[derive(Clone, Default)]
pub struct TPerfCount {
    pub kernel_events: TSubsysPerfCount,
    pub userspace_events: TSubsysPerfCount,
}

#[derive(Clone, Default)]
pub struct TSubsysPerfCount {
    pub count: i64,
    pub time_enabled: i64,
    pub time_running: i64,
}

#[derive(Clone, Default)]
pub struct TActionResult2 {
    pub output_files: Vec<TFile>,
    pub output_directories: Vec<TDirectory2>,
    pub exit_code: i32,
    pub stdout_raw: Option<Vec<u8>>,
    pub stdout_digest: Option<TDigest>,
    pub stderr_raw: Option<Vec<u8>>,
    pub stderr_digest: Option<TDigest>,
    pub execution_metadata: TExecutedActionMetadata,
    pub auxiliary_metadata: Vec<TAny>,
    pub output_symlinks: Vec<TSymlink>,
}

#[derive(Clone, Default)]
pub struct TAny {
    pub type_url: String,
    pub value: Vec<u8>,
}

#[derive(Clone, Default)]
pub struct ActionResultResponse {
    pub action_result: TActionResult2,
    pub ttl: i64,
}

#[derive(Clone, Default)]
pub struct WriteActionResultResponse {
    pub actual_action_result: TActionResult2,
    pub ttl_seconds: i64,
}

#[derive(Clone, Default)]
pub struct DownloadResponse {
    pub inlined_blobs: Option<Vec<InlinedDigestWithStatus>>,
    pub directories: Option<Vec<DigestWithStatus>>,
    pub local_cache_stats: TLocalCacheStats,
}

#[derive(Clone, Default)]
pub struct InlinedDigestWithStatus {
    pub digest: TDigest,
    pub status: TStatus,
    pub blob: Vec<u8>,
}

#[derive(Clone, Default)]
pub struct DigestWithStatus {
    pub digest: TDigest,
    pub status: TStatus,
}

#[derive(Clone, Default)]
pub struct CacheFunnelStats {
    pub digests_served_from_memory: i64,
    pub digests_served_from_fs: i64,
}

#[derive(Clone, Default)]
pub struct TLocalCacheStats {
    pub total_cache_lookup_attempts: i64,
    pub hits_files: i64,
    pub hits_bytes: i64,
    pub misses_files: i64,
    pub misses_bytes: i64,
    pub cache_lookup_latency_microseconds: i64,
    pub cache_funnel_stats: CacheFunnelStats,
}

#[derive(Debug, Clone, Default)]
pub struct TStatus {
    pub code: TCode,
    pub message: String,
}

#[derive(Clone, Default)]
pub struct FindMissingBlobsResponse {
    pub missing_digests: Vec<TDigest>,
}

#[derive(Clone, Default)]
pub struct DigestWithTtl {
    pub digest: TDigest,
    pub ttl: i64,
}

#[derive(Clone, Default)]
pub struct GetDigestsTtlResponse {
    pub digests_with_ttl: Vec<DigestWithTtl>,
}

#[derive(Clone, Default)]
pub struct ExecuteResponse {
    pub action_result: TActionResult2,
    pub status: TStatus,
    pub cached_result: bool,
    pub action_digest: TDigest,
    pub action_result_digest: TDigest,
    pub action_result_ttl: i64,
}

#[derive(Clone, Default)]
pub struct ExecutedActionStorageStats {
    pub downloads: TStorageStats,
    pub uploads: TStorageStats,
    pub inputs_downloads: TStorageStats,
    pub inputs_uploads: TStorageStats,
    pub outputs_downloads: TStorageStats,
    pub outputs_uploads: TStorageStats,
    pub local_cache_stats: TLocalCacheStats,
}

#[derive(Clone, Default)]
pub struct ExecutedActionMemoryStats {
    pub max_used_mem: i64,
    pub reserved_mem: i64,
}

#[derive(Clone, Default)]
pub struct TaskInfo {
    pub estimated_queue_time_ms: i64,
    pub state: TaskState,
}

#[derive(Clone)]
#[allow(non_camel_case_types)]
pub enum TaskState {
    enqueued(EnqueuedTaskState),
    waiting_on_reservation(WaitingOnReservationTaskState),
    no_worker_available(NoAgentAvailableTaskState),
    cancelled(CancelledTaskState),
    over_quota(OverQuotaTaskState),
    acquiring_dependencies(AcquiringDependenciesTaskState),
    UnknownField(i32),
}

impl Default for TaskState {
    fn default() -> (state: Self)
        ensures
            state == TaskState::UnknownField(1),
    {
        Self::UnknownField(1)
    }
}

#[derive(Clone, Default)]
pub struct EnqueuedTaskState {}

#[derive(Clone, Default)]
pub struct NoAgentAvailableTaskState {}

#[derive(Clone, Default)]
pub struct CancelledTaskState {}

#[derive(Clone, Default)]
pub struct OverQuotaTaskState {}

#[derive(Clone, Default)]
pub struct WaitingOnReservationTaskState {}

#[derive(Clone, Default)]
pub struct AcquiringDependenciesTaskState {}

#[derive(Clone, Default)]
pub struct OperationMetadata {
    pub action_digest: TDigest,
    pub stdout_stream_name: String,
    pub stderr_stream_name: String,
    pub task_info: Option<TaskInfo>,
}

#[derive(PartialEq, Eq, Debug, Clone, Copy, Default)]
pub struct Stage(pub i32);

impl Stage {
    /// The stage is not known.
    pub fn unknown() -> (stage: Self)
        ensures
            stage.0 == 0,
    {
        Stage(0i32)
    }

    /// The cache is asked for the result.
    pub fn cache_check() -> (stage: Self)
        ensures
            stage.0 == 1,
    {
        Stage(1i32)
    }

    /// The action waits for a worker.
    pub fn queued() -> (stage: Self)
        ensures
            stage.0 == 2,
    {
        Stage(2i32)
    }

    /// The action runs.
    pub fn executing() -> (stage: Self)
        ensures
            stage.0 == 3,
    {
        Stage(3i32)
    }

    /// The action is done.
    pub fn completed() -> (stage: Self)
        ensures
            stage.0 == 4,
    {
        Stage(4i32)
    }

    /// The inputs are put in place.
    pub fn materializing_input() -> (stage: Self)
        ensures
            stage.0 == 100,
    {
        Stage(100i32)
    }

    /// The outputs are uploaded.
    pub fn uploading_output() -> (stage: Self)
        ensures
            stage.0 == 101,
    {
        Stage(101i32)
    }

    /// Nothing new; the connection is kept open.
    pub fn keep_alive() -> (stage: Self)
        ensures
            stage.0 == 102,
    {
        Stage(102i32)
    }

    /// The worker prepares for the action.
    pub fn before_action() -> (stage: Self)
        ensures
            stage.0 == 103,
    {
        Stage(103i32)
    }

    /// The worker cleans up after the action.
    pub fn after_action() -> (stage: Self)
        ensures
            stage.0 == 104,
    {
        Stage(104i32)
    }

    /// A worker has taken the action.
    pub fn worker_received() -> (stage: Self)
        ensures
            stage.0 == 105,
    {
        Stage(105i32)
    }
}

#[derive(Clone, Default)]
pub struct ExecuteWithProgressResponse {
    pub stage: Stage,
    pub execute_response: Option<ExecuteResponse>,
    pub metadata: OperationMetadata,
}

#[derive(Clone, Debug, Default)]
pub struct UploadResponse {}

#[derive(Clone, Default)]
pub struct TDirectory2 {
    pub path: String,
    pub tree_digest: TDigest,
    pub root_directory_digest: TDigest,
}

#[derive(Clone, Default)]
pub struct TFile {
    pub digest: DigestWithStatus,
    pub name: String,
    pub existed: bool,
    pub executable: bool,
    pub ttl: i64,
}

#[derive(Clone, Default)]
pub struct TSymlink {
    pub name: String,
    pub target: String,
}

#[derive(Clone, Default)]
pub struct NetworkStatisticsResponse {
    pub uploaded: i64,
    pub downloaded: i64,
    pub download_storage_stats: TStorageStats,
    pub upload_storage_stats: TStorageStats,
}

#[derive(Clone, Default)]
pub struct TStorageStats {
}

} // verus!
