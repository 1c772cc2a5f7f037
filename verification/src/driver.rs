//! The decisions of a running scan: which host to probe next, when to write
//! results and progress, and how the task ends. The caller performs the
//! probes and the writes and reports back what happened.

use vstd::prelude::*;
use crate::report::ScanHostResult;
use crate::task::{
    HostScanResult, HostScanResultView, PROGRESS_FLUSH_INTERVAL, RESULT_FLUSH_BATCH_SIZE,
    host_record, record_of, should_flush_task_progress,
};
use crate::text::string_of;

verus! {

broadcast use vstd::string::group_string_axioms;

/// The state of one running scan.
pub struct ScanDriver {
    total_hosts: usize,
    max_concurrency: usize,
    launched: usize,
    running: usize,
    lost: usize,
    scanned: i32,
    last_flushed: i32,
    pending: Vec<HostScanResult>,
}

/// The abstract state of a [`ScanDriver`].
pub struct ScanDriverView {
    /// Hosts of the scan.
    pub total_hosts: nat,
    /// Most probes running at once.
    pub max_concurrency: nat,
    /// Hosts handed out to probes so far; they are handed out in order.
    pub launched: nat,
    /// Probes handed out and not yet reported.
    pub running: nat,
    /// Hosts whose probe ended without a result.
    pub lost: nat,
    /// Hosts whose probe has reported a result.
    pub scanned: nat,
    /// The scanned count at the last progress write.
    pub last_flushed: nat,
    /// Host records not yet written.
    pub pending: Seq<HostScanResultView>,
}

/// The views of a sequence of records.
pub open spec fn records_view(rs: Seq<HostScanResult>) -> Seq<HostScanResultView> {
    rs.map_values(|r: HostScanResult| r@)
}

impl View for ScanDriver {
    type V = ScanDriverView;

    closed spec fn view(&self) -> ScanDriverView {
        ScanDriverView {
            total_hosts: self.total_hosts as nat,
            max_concurrency: self.max_concurrency as nat,
            launched: self.launched as nat,
            running: self.running as nat,
            lost: self.lost as nat,
            scanned: self.scanned as nat,
            last_flushed: self.last_flushed as nat,
            pending: records_view(self.pending@),
        }
    }
}

/// The numbers of a driver stay consistent: no more hosts handed out than
/// exist, no more probes running than allowed, every host handed out is
/// running, scanned or lost, and the last progress write lies behind.
pub open spec fn driver_inv(v: ScanDriverView) -> bool {
    &&& v.total_hosts <= i32::MAX
    &&& v.launched <= v.total_hosts
    &&& v.running <= v.max_concurrency
    &&& v.scanned + v.running + v.lost == v.launched
    &&& v.last_flushed <= v.scanned
}

/// Whether [`ScanDriver::next_host`] hands out a host: a probe slot is
/// free, no stop was requested, and hosts remain.
pub open spec fn hands_out(v: ScanDriverView, stop_requested: bool) -> bool {
    v.running < v.max_concurrency && !stop_requested && v.launched < v.total_hosts
}

/// What every step of a driver keeps: the host total stays, and the scanned
/// count, which published progress reports, never falls and stays within
/// the total.
pub open spec fn counts_advance(a: ScanDriverView, b: ScanDriverView) -> bool {
    &&& b.total_hosts == a.total_hosts
    &&& a.scanned <= b.scanned <= b.total_hosts
}

/// How a scan ends.
pub struct ScanEnd {
    /// `"canceled"` or `"completed"`.
    pub status: String,
    /// The host count recorded: the scanned hosts when canceled, all hosts
    /// when completed.
    pub scanned_hosts: i32,
    /// Whether the progress is recorded as whole (completed scans).
    pub complete: bool,
}

impl ScanDriver {
    pub closed spec fn wf(&self) -> bool {
        &&& driver_inv(self@)
        &&& self.scanned >= 0
        &&& self.last_flushed >= 0
    }

    /// The numbers of a well-formed driver are consistent: in particular no
    /// more probes are running than `max_concurrency` allows, and every host
    /// handed out is running, scanned or lost.
    pub proof fn lemma_counts_consistent(&self)
        requires
            self.wf(),
        ensures
            driver_inv(self@),
    {
    }

    /// A driver for a scan of `total_hosts` hosts, at most `max_concurrency`
    /// probed at once.
    pub fn new(total_hosts: usize, max_concurrency: usize) -> (d: Self)
        requires
            total_hosts <= i32::MAX,
        ensures
            d.wf(),
            d@.total_hosts == total_hosts,
            d@.max_concurrency == max_concurrency,
            d@.launched == 0,
            d@.running == 0,
            d@.lost == 0,
            d@.scanned == 0,
            d@.last_flushed == 0,
            d@.pending.len() == 0,
    {
        ScanDriver {
            total_hosts,
            max_concurrency,
            launched: 0,
            running: 0,
            lost: 0,
            scanned: 0,
            last_flushed: 0,
            pending: Vec::new(),
        }
    }

    /// The next host to probe, by index: one is handed out while fewer than
    /// the allowed number of probes run, no stop was requested, and hosts
    /// remain. Hosts are handed out in order, each once.
    pub fn next_host(&mut self, stop_requested: bool) -> (r: Option<usize>)
        requires
            old(self).wf(),
        ensures
            final(self).wf(),
            counts_advance(old(self)@, final(self)@),
            ({
                let o = old(self)@;
                let f = final(self)@;
                if hands_out(o, stop_requested) {
                    &&& r == Some(o.launched as usize)
                    &&& f == ScanDriverView { launched: o.launched + 1, running: o.running + 1, ..o }
                } else {
                    r is None && f == o
                }
            }),
    {
        if self.running < self.max_concurrency && !stop_requested && self.launched < self.total_hosts {
            let i = self.launched;
            self.launched = self.launched + 1;
            self.running = self.running + 1;
            Some(i)
        } else {
            None
        }
    }

    /// Whether no probe is running.
    pub fn is_idle(&self) -> (r: bool)
        ensures
            r == (self@.running == 0),
    {
        self.running == 0
    }

    /// A probe ended without a result (it could not run or did not finish);
    /// its host is not counted as scanned.
    pub fn probe_lost(&mut self)
        requires
            old(self).wf(),
            old(self)@.running > 0,
        ensures
            final(self).wf(),
            counts_advance(old(self)@, final(self)@),
            final(self)@ == (ScanDriverView {
                running: (old(self)@.running - 1) as nat,
                lost: old(self)@.lost + 1,
                ..old(self)@
            }),
    {
        self.running = self.running - 1;
        self.lost = self.lost + 1;
    }

    /// A probe reported on its host: the host counts as scanned and a host
    /// that answered is queued for writing. Returns whether the queued
    /// records are due to be written (a result was queued and the queue
    /// reached [`RESULT_FLUSH_BATCH_SIZE`]) and whether the progress is due
    /// to be written (see [`should_flush_task_progress`]).
    pub fn host_scanned(&mut self, task_id: &str, result: &Option<ScanHostResult>) -> (r: (bool, bool))
        requires
            old(self).wf(),
            old(self)@.running > 0,
        ensures
            final(self).wf(),
            counts_advance(old(self)@, final(self)@),
            ({
                let o = old(self)@;
                let f = final(self)@;
                &&& f.running == o.running - 1
                &&& f.scanned == o.scanned + 1
                &&& f.launched == o.launched
                &&& f.lost == o.lost
                &&& f.total_hosts == o.total_hosts
                &&& f.max_concurrency == o.max_concurrency
                &&& f.last_flushed == o.last_flushed
                &&& f.pending == match result {
                    Some(h) => o.pending.push(record_of(task_id@, h@)),
                    None => o.pending,
                }
                &&& r.0 == (result is Some && f.pending.len() >= RESULT_FLUSH_BATCH_SIZE)
                &&& r.1 == (f.scanned >= f.total_hosts || f.scanned - f.last_flushed
                    >= PROGRESS_FLUSH_INTERVAL)
            }),
    {
        let mut flush_results = false;
        match result {
            Some(h) => {
                let record = host_record(task_id, h);
                self.pending.push(record);
                assert(records_view(self.pending@) =~= records_view(old(self).pending@).push(
                    record@,
                ));
                flush_results = self.pending.len() >= RESULT_FLUSH_BATCH_SIZE;
            },
            None => {},
        }
        self.running = self.running - 1;
        self.scanned = self.scanned + 1;
        let flush_progress = should_flush_task_progress(
            self.scanned,
            self.total_hosts as i32,
            self.last_flushed,
        );
        (flush_results, flush_progress)
    }

    /// The host records not yet written.
    pub fn pending_results(&self) -> (r: &Vec<HostScanResult>)
        ensures
            records_view(r@) == self@.pending,
    {
        &self.pending
    }

    /// The queued records were written.
    pub fn results_stored(&mut self)
        requires
            old(self).wf(),
        ensures
            final(self).wf(),
            counts_advance(old(self)@, final(self)@),
            final(self)@ == (ScanDriverView { pending: Seq::empty(), ..old(self)@ }),
    {
        self.pending.clear();
        assert(records_view(self.pending@) =~= Seq::<HostScanResultView>::empty());
    }

    /// The progress was written at the current scanned count.
    pub fn progress_stored(&mut self)
        requires
            old(self).wf(),
        ensures
            final(self).wf(),
            counts_advance(old(self)@, final(self)@),
            final(self)@ == (ScanDriverView { last_flushed: old(self)@.scanned, ..old(self)@ }),
    {
        self.last_flushed = self.scanned;
    }

    /// Hosts scanned so far.
    pub fn scanned(&self) -> (r: i32)
        requires
            self.wf(),
        ensures
            r == self@.scanned,
    {
        self.scanned
    }

    /// Hosts of the scan.
    pub fn total_hosts(&self) -> (r: i32)
        requires
            self.wf(),
        ensures
            r == self@.total_hosts,
    {
        self.total_hosts as i32
    }

    /// How the scan ends: canceled with the hosts scanned so far, or
    /// completed with all hosts counted.
    pub fn finish(&self, canceled: bool) -> (r: ScanEnd)
        requires
            self.wf(),
        ensures
            canceled ==> r.status@ == "canceled"@ && r.scanned_hosts == self@.scanned && !r.complete,
            !canceled ==> r.status@ == "completed"@ && r.scanned_hosts == self@.total_hosts
                && r.complete,
    {
        if canceled {
            ScanEnd { status: string_of("canceled"), scanned_hosts: self.scanned, complete: false }
        } else {
            ScanEnd {
                status: string_of("completed"),
                scanned_hosts: self.total_hosts as i32,
                complete: true,
            }
        }
    }
}

/// A scan that nobody stops hands out every host: when no host is handed
/// out although a probe slot is free and no stop was requested, every host
/// has been handed out.
pub proof fn lemma_unstopped_scan_hands_out_all(v: ScanDriverView)
    requires
        driver_inv(v),
        v.running < v.max_concurrency,
        !hands_out(v, false),
    ensures
        v.launched == v.total_hosts,
{
}

/// Every host of a scan is accounted for once: when no probe runs and
/// every host has been handed out, each host was either scanned or its probe
/// was lost, so a scan that lost no probe has scanned every host.
pub proof fn lemma_every_host_accounted(v: ScanDriverView)
    requires
        driver_inv(v),
        v.running == 0,
        v.launched == v.total_hosts,
    ensures
        v.scanned + v.lost == v.total_hosts,
        v.lost == 0 ==> v.scanned == v.total_hosts,
{
}

} // verus!
