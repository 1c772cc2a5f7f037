//! Progress updates of a running scan and the bounded history kept of them.

use vstd::prelude::*;
use crate::report::{ScanHostResult, ScanHostResultView, clone_host_result, host_result_view};
use crate::text::string_of;

verus! {

broadcast use vstd::string::group_string_axioms;

/// How many progress updates a task keeps for late subscribers.
pub const HISTORY_LIMIT: usize = 1024;

/// One progress event of a scan task.
#[derive(Debug)]
pub struct ScanProgressUpdate {
    pub task_id: String,
    pub progress: i32,
    pub scanned_hosts: i32,
    pub total_hosts: i32,
    pub current_host: String,
    pub status: String,
    pub host_status: Option<String>,
    pub open_ports: Vec<u16>,
    pub host_result: Option<ScanHostResult>,
}

/// The abstract value of a [`ScanProgressUpdate`].
pub struct ScanProgressUpdateView {
    pub task_id: Seq<char>,
    pub progress: i32,
    pub scanned_hosts: i32,
    pub total_hosts: i32,
    pub current_host: Seq<char>,
    pub status: Seq<char>,
    pub host_status: Option<Seq<char>>,
    pub open_ports: Seq<u16>,
    pub host_result: Option<ScanHostResultView>,
}

impl View for ScanProgressUpdate {
    type V = ScanProgressUpdateView;

    open spec fn view(&self) -> ScanProgressUpdateView {
        ScanProgressUpdateView {
            task_id: self.task_id@,
            progress: self.progress,
            scanned_hosts: self.scanned_hosts,
            total_hosts: self.total_hosts,
            current_host: self.current_host@,
            status: self.status@,
            host_status: self.host_status.deep_view(),
            open_ports: self.open_ports@,
            host_result: host_result_view(self.host_result),
        }
    }
}

fn clone_ports(v: &Vec<u16>) -> (res: Vec<u16>)
    ensures
        res@ == v@,
{
    let res = v.clone();
    assert(res@ =~= v@);
    res
}

impl Clone for ScanProgressUpdate {
    fn clone(&self) -> (res: Self)
        ensures
            res@ == self@,
    {
        ScanProgressUpdate {
            task_id: self.task_id.clone(),
            progress: self.progress,
            scanned_hosts: self.scanned_hosts,
            total_hosts: self.total_hosts,
            current_host: self.current_host.clone(),
            status: self.status.clone(),
            host_status: self.host_status.clone(),
            open_ports: clone_ports(&self.open_ports),
            host_result: clone_host_result(&self.host_result),
        }
    }
}

/// The views of a sequence of updates.
pub open spec fn updates_view(us: Seq<ScanProgressUpdate>) -> Seq<ScanProgressUpdateView> {
    us.map_values(|u: ScanProgressUpdate| u@)
}

/// A history after one more update: the update is appended and, when that
/// makes the history longer than [`HISTORY_LIMIT`], the oldest one is dropped.
pub open spec fn bounded_push<T>(h: Seq<T>, u: T) -> Seq<T> {
    if h.len() + 1 > HISTORY_LIMIT {
        h.push(u).drop_first()
    } else {
        h.push(u)
    }
}

/// A history after a series of updates, in order.
pub open spec fn bounded_push_all<T>(h: Seq<T>, us: Seq<T>) -> Seq<T>
    decreases us.len(),
{
    if us.len() == 0 {
        h
    } else {
        bounded_push(bounded_push_all(h, us.drop_last()), us.last())
    }
}

/// The last `min(n, s.len())` elements of `s`.
pub open spec fn last_n<T>(s: Seq<T>, n: nat) -> Seq<T> {
    if s.len() <= n {
        s
    } else {
        s.subrange(s.len() - n, s.len() as int)
    }
}

/// A history never holds more than [`HISTORY_LIMIT`] updates, and it holds
/// exactly the most recent ones: after any series of updates, starting from
/// a history within the limit, it is the last [`HISTORY_LIMIT`] of all.
pub proof fn lemma_history_keeps_latest<T>(h: Seq<T>, us: Seq<T>)
    requires
        h.len() <= HISTORY_LIMIT,
    ensures
        bounded_push_all(h, us) == last_n(h + us, HISTORY_LIMIT as nat),
        bounded_push_all(h, us).len() <= HISTORY_LIMIT,
    decreases us.len(),
{
    if us.len() == 0 {
        assert(h + us =~= h);
    } else {
        lemma_history_keeps_latest(h, us.drop_last());
        let prev = bounded_push_all(h, us.drop_last());
        let all = h + us;
        assert(all.drop_last() =~= h + us.drop_last());
        assert(all.last() == us.last());
        let n = HISTORY_LIMIT as int;
        if all.len() <= n {
            assert(prev =~= all.drop_last());
            assert(bounded_push(prev, us.last()) =~= all);
        } else if all.len() == n + 1 {
            assert(prev =~= all.drop_last());
            assert(bounded_push(prev, us.last()) =~= all.subrange(all.len() - n, all.len() as int));
        } else {
            assert(prev =~= all.drop_last().subrange(all.len() - 1 - n, all.len() - 1));
            assert(bounded_push(prev, us.last()) =~= all.subrange(all.len() - n, all.len() as int));
        }
    }
}

/// Recording an update in the latest [`HISTORY_LIMIT`] of a series of
/// updates gives the latest [`HISTORY_LIMIT`] of the series with that update.
pub proof fn lemma_bounded_push_keeps_window<T>(s: Seq<T>, u: T)
    ensures
        bounded_push(last_n(s, HISTORY_LIMIT as nat), u) == last_n(s.push(u), HISTORY_LIMIT as nat),
{
    let n = HISTORY_LIMIT as int;
    let t = s.push(u);
    if s.len() < n {
        assert(bounded_push(s, u) =~= t);
    } else if s.len() == n {
        assert(bounded_push(s, u) =~= t.subrange(t.len() - n, t.len() as int));
    } else {
        let w = s.subrange(s.len() - n, s.len() as int);
        assert(bounded_push(w, u) =~= t.subrange(t.len() - n, t.len() as int));
    }
}

/// The update just recorded is the newest entry of the history, and
/// recording it keeps the history within [`HISTORY_LIMIT`].
pub proof fn lemma_published_update_is_latest<T>(h: Seq<T>, u: T)
    requires
        h.len() <= HISTORY_LIMIT,
    ensures
        bounded_push(h, u).len() <= HISTORY_LIMIT,
        bounded_push(h, u).len() > 0,
        bounded_push(h, u).last() == u,
{
}

/// A `"scanning"` update sent when a host is handed to a probe.
pub fn host_started_update(task_id: &str, progress: i32, scanned_hosts: i32, total_hosts: i32, host: &str) -> (u: ScanProgressUpdate)
    ensures
        u@ == (ScanProgressUpdateView {
            task_id: task_id@,
            progress,
            scanned_hosts,
            total_hosts,
            current_host: host@,
            status: "scanning"@,
            host_status: Some("scanning"@),
            open_ports: Seq::<u16>::empty(),
            host_result: None,
        }),
{
    let u = ScanProgressUpdate {
        task_id: string_of(task_id),
        progress,
        scanned_hosts,
        total_hosts,
        current_host: string_of(host),
        status: string_of("scanning"),
        host_status: Some(string_of("scanning")),
        open_ports: Vec::new(),
        host_result: None,
    };
    assert(u.open_ports@ =~= Seq::<u16>::empty());
    u
}

/// A `"scanning"` update sent when a host has been probed.
pub fn host_finished_update(
    task_id: &str,
    progress: i32,
    scanned_hosts: i32,
    total_hosts: i32,
    host: &str,
    host_status: String,
    open_ports: Vec<u16>,
    host_result: Option<ScanHostResult>,
) -> (u: ScanProgressUpdate)
    ensures
        u@ == (ScanProgressUpdateView {
            task_id: task_id@,
            progress,
            scanned_hosts,
            total_hosts,
            current_host: host@,
            status: "scanning"@,
            host_status: Some(host_status@),
            open_ports: open_ports@,
            host_result: host_result_view(host_result),
        }),
{
    ScanProgressUpdate {
        task_id: string_of(task_id),
        progress,
        scanned_hosts,
        total_hosts,
        current_host: string_of(host),
        status: string_of("scanning"),
        host_status: Some(host_status),
        open_ports,
        host_result,
    }
}

/// The last update of a task, with `"finished"` as its current host.
pub fn final_update(task_id: &str, progress: i32, scanned_hosts: i32, total_hosts: i32, status: &str) -> (u: ScanProgressUpdate)
    ensures
        u@ == (ScanProgressUpdateView {
            task_id: task_id@,
            progress,
            scanned_hosts,
            total_hosts,
            current_host: "finished"@,
            status: status@,
            host_status: None,
            open_ports: Seq::<u16>::empty(),
            host_result: None,
        }),
{
    let u = ScanProgressUpdate {
        task_id: string_of(task_id),
        progress,
        scanned_hosts,
        total_hosts,
        current_host: string_of("finished"),
        status: string_of(status),
        host_status: None,
        open_ports: Vec::new(),
        host_result: None,
    };
    assert(u.open_ports@ =~= Seq::<u16>::empty());
    u
}

} // verus!
