//! Stored scan records and the rules about a task's status.

use vstd::prelude::*;
use crate::json::{details_json, details_to_json};
use crate::report::{ScanHostResult, ScanHostResultView};
use crate::text::{str_equal, string_of};

verus! {

broadcast use vstd::string::group_string_axioms;

/// One stored host result of a scan task; `ports` holds the port details as
/// JSON text.
#[derive(Debug)]
pub struct HostScanResult {
    pub id: i64,
    pub task_id: String,
    pub host: String,
    pub status: String,
    pub ports: String,
    pub detail: String,
}

/// The abstract value of a [`HostScanResult`].
pub struct HostScanResultView {
    pub id: i64,
    pub task_id: Seq<char>,
    pub host: Seq<char>,
    pub status: Seq<char>,
    pub ports: Seq<char>,
    pub detail: Seq<char>,
}

impl View for HostScanResult {
    type V = HostScanResultView;

    open spec fn view(&self) -> HostScanResultView {
        HostScanResultView {
            id: self.id,
            task_id: self.task_id@,
            host: self.host@,
            status: self.status@,
            ports: self.ports@,
            detail: self.detail@,
        }
    }
}

/// The record of a host result, as [`host_record`] builds it.
pub open spec fn record_of(task_id: Seq<char>, result: ScanHostResultView) -> HostScanResultView {
    HostScanResultView {
        id: 0,
        task_id,
        host: result.host,
        status: result.status,
        ports: details_json(result.ports),
        detail: result.detail,
    }
}

/// The record under which a host result is stored; the store assigns the
/// id, so it is 0 here.
pub fn host_record(task_id: &str, result: &ScanHostResult) -> (r: HostScanResult)
    ensures
        r@ == record_of(task_id@, result@),
{
    HostScanResult {
        id: 0,
        task_id: string_of(task_id),
        host: result.host.clone(),
        status: result.status.clone(),
        ports: details_to_json(&result.ports),
        detail: result.detail.clone(),
    }
}

/// Whether a task status is final: completed, failed or canceled.
pub open spec fn is_terminal(status: Seq<char>) -> bool {
    status == "completed"@ || status == "failed"@ || status == "canceled"@
}

/// Whether a task status is final: completed, failed or canceled.
pub fn is_terminal_task_status(status: &str) -> (r: bool)
    ensures
        r == is_terminal(status@),
{
    str_equal(status, "completed") || str_equal(status, "failed") || str_equal(status, "canceled")
}

/// How many hosts may be scanned between two writes of a task's progress.
pub const PROGRESS_FLUSH_INTERVAL: i32 = 8;

/// How many host results are gathered before they are written.
pub const RESULT_FLUSH_BATCH_SIZE: usize = 32;

/// Whether a task's progress is due to be written: when every host is
/// scanned, or when [`PROGRESS_FLUSH_INTERVAL`] hosts were scanned since the
/// last write.
pub fn should_flush_task_progress(scanned_count: i32, total_hosts: i32, last_flushed: i32) -> (r: bool)
    requires
        i32::MIN <= scanned_count - last_flushed <= i32::MAX,
    ensures
        r == (scanned_count >= total_hosts || scanned_count - last_flushed >= PROGRESS_FLUSH_INTERVAL),
{
    scanned_count >= total_hosts || scanned_count - last_flushed >= PROGRESS_FLUSH_INTERVAL
}

/// What a request to cancel a task comes to.
#[derive(Debug, PartialEq, Eq)]
pub enum CancelAction {
    /// The task had already ended; it keeps its status.
    AlreadyFinished,
    /// The running scan was signaled and will stop.
    Signaled,
    /// No running scan took the signal: the task is marked canceled directly.
    MarkCanceled,
}

/// Decides a cancel request from the task's stored status and, for a task
/// that has not ended, from whether its running scan took the cancel
/// signal: a task that has ended keeps its status; a signaled scan stops
/// itself; when no scan took the signal, the task is marked canceled.
pub fn cancel_action(stored_status: &str, delivered: bool) -> (r: CancelAction)
    ensures
        is_terminal(stored_status@) ==> r == CancelAction::AlreadyFinished,
        !is_terminal(stored_status@) && delivered ==> r == CancelAction::Signaled,
        !is_terminal(stored_status@) && !delivered ==> r == CancelAction::MarkCanceled,
{
    if is_terminal_task_status(stored_status) {
        CancelAction::AlreadyFinished
    } else if delivered {
        CancelAction::Signaled
    } else {
        CancelAction::MarkCanceled
    }
}

/// The status a cancel request answers with.
pub fn cancel_response_status(stored_status: &str, action: &CancelAction) -> (r: String)
    ensures
        match action {
            CancelAction::AlreadyFinished => r@ == stored_status@,
            CancelAction::Signaled => r@ == "canceling"@,
            CancelAction::MarkCanceled => r@ == "canceled"@,
        },
{
    match action {
        CancelAction::AlreadyFinished => string_of(stored_status),
        CancelAction::Signaled => string_of("canceling"),
        CancelAction::MarkCanceled => string_of("canceled"),
    }
}

/// What a progress subscriber is sent.
#[derive(Debug, PartialEq, Eq)]
pub enum ProgressFeed {
    /// The recorded history, then the live updates.
    HistoryThenLive,
    /// The recorded history alone: the task has ended.
    HistoryOnly,
    /// One update built from the stored task: no history is kept for it.
    StoredSnapshot,
}

/// What a progress subscriber is sent, from whether the task has ended and
/// whether its progress history is still kept.
pub fn progress_feed(task_finished: bool, has_history: bool) -> (r: ProgressFeed)
    ensures
        has_history && !task_finished ==> r == ProgressFeed::HistoryThenLive,
        has_history && task_finished ==> r == ProgressFeed::HistoryOnly,
        !has_history ==> r == ProgressFeed::StoredSnapshot,
{
    if has_history {
        if task_finished {
            ProgressFeed::HistoryOnly
        } else {
            ProgressFeed::HistoryThenLive
        }
    } else {
        ProgressFeed::StoredSnapshot
    }
}

} // verus!
