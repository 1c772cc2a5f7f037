//! Per-host scan results: the probe outcome of each port, the summary of a
//! host that answered, and the line of text that describes it.

use vstd::prelude::*;
use crate::text::{decimal, push_decimal, push_str, str_equal, string_of};

verus! {

broadcast use vstd::string::group_string_axioms;

/// The result of probing one TCP port of a host.
#[derive(Debug, PartialEq, Eq)]
pub struct PortScanDetail {
    pub port: u16,
    /// `"open"` or `"refused"`.
    pub status: String,
    pub banner: Option<String>,
}

/// The abstract value of a [`PortScanDetail`].
pub struct PortScanDetailView {
    pub port: u16,
    pub status: Seq<char>,
    pub banner: Option<Seq<char>>,
}

impl View for PortScanDetail {
    type V = PortScanDetailView;

    open spec fn view(&self) -> PortScanDetailView {
        PortScanDetailView { port: self.port, status: self.status@, banner: self.banner.deep_view() }
    }
}

impl Clone for PortScanDetail {
    fn clone(&self) -> (res: Self)
        ensures
            res@ == self@,
    {
        PortScanDetail { port: self.port, status: self.status.clone(), banner: self.banner.clone() }
    }
}

/// The summary of a host that answered a scan.
#[derive(Debug)]
pub struct ScanHostResult {
    pub host: String,
    pub status: String,
    pub ports: Vec<PortScanDetail>,
    pub detail: String,
}

/// The abstract value of a [`ScanHostResult`].
pub struct ScanHostResultView {
    pub host: Seq<char>,
    pub status: Seq<char>,
    pub ports: Seq<PortScanDetailView>,
    pub detail: Seq<char>,
}

/// The views of a sequence of port details.
pub open spec fn details_view(ports: Seq<PortScanDetail>) -> Seq<PortScanDetailView> {
    ports.map_values(|p: PortScanDetail| p@)
}

impl View for ScanHostResult {
    type V = ScanHostResultView;

    open spec fn view(&self) -> ScanHostResultView {
        ScanHostResultView {
            host: self.host@,
            status: self.status@,
            ports: details_view(self.ports@),
            detail: self.detail@,
        }
    }
}

/// A copy of a vector of port details.
pub fn clone_details(v: &Vec<PortScanDetail>) -> (res: Vec<PortScanDetail>)
    ensures
        details_view(res@) == details_view(v@),
{
    let res = v.clone();
    assert(details_view(res@) =~= details_view(v@));
    res
}

impl Clone for ScanHostResult {
    fn clone(&self) -> (res: Self)
        ensures
            res@ == self@,
    {
        ScanHostResult {
            host: self.host.clone(),
            status: self.status.clone(),
            ports: clone_details(&self.ports),
            detail: self.detail.clone(),
        }
    }
}

/// The view of an optional host result.
pub open spec fn host_result_view(r: Option<ScanHostResult>) -> Option<ScanHostResultView> {
    match r {
        Some(h) => Some(h@),
        None => None,
    }
}

/// A copy of an optional host result.
pub fn clone_host_result(r: &Option<ScanHostResult>) -> (res: Option<ScanHostResult>)
    ensures
        host_result_view(res) == host_result_view(*r),
{
    match r {
        Some(h) => Some(h.clone()),
        None => None,
    }
}

/// How many of `ports` have the status `st`.
pub open spec fn count_status(ports: Seq<PortScanDetailView>, st: Seq<char>) -> nat
    decreases ports.len(),
{
    if ports.len() == 0 {
        0
    } else {
        count_status(ports.drop_last(), st) + if ports.last().status == st { 1nat } else { 0nat }
    }
}

/// The numbers of the open ports among `ports`, in order.
pub open spec fn open_port_numbers(ports: Seq<PortScanDetailView>) -> Seq<u16>
    decreases ports.len(),
{
    if ports.len() == 0 {
        Seq::<u16>::empty()
    } else {
        let rest = open_port_numbers(ports.drop_last());
        if ports.last().status == "open"@ {
            rest.push(ports.last().port)
        } else {
            rest
        }
    }
}

/// `"port"` for one, `"ports"` otherwise.
pub open spec fn port_noun(n: nat) -> Seq<char> {
    if n == 1 {
        "port"@
    } else {
        "ports"@
    }
}

/// The detail line of a host that answered a TCP scan with `open` open and
/// `refused` refused ports.
pub open spec fn tcp_detail(open: nat, refused: nat) -> Seq<char> {
    if refused == 0 {
        "Found "@ + decimal(open) + " open TCP "@ + port_noun(open)
    } else if open == 0 {
        "Connection refused on "@ + decimal(refused) + " TCP "@ + port_noun(refused)
            + " (RST received; host is online)"@
    } else {
        "Found "@ + decimal(open) + " open TCP "@ + port_noun(open) + "; "@ + decimal(refused)
            + " TCP "@ + port_noun(refused) + " refused the connection"@
    }
}

fn count_with_status(ports: &Vec<PortScanDetail>, st: &str) -> (n: usize)
    ensures
        n == count_status(details_view(ports@), st@),
{
    let mut n: usize = 0;
    let mut i: usize = 0;
    while i < ports.len()
        invariant
            i <= ports.len(),
            n <= i,
            n == count_status(details_view(ports@.take(i as int)), st@),
        decreases ports.len() - i,
    {
        proof {
            assert(details_view(ports@.take(i + 1)).drop_last() == details_view(ports@.take(i as int)));
        }
        if str_equal(ports[i].status.as_str(), st) {
            n = n + 1;
        }
        i = i + 1;
    }
    assert(ports@.take(ports.len() as int) == ports@);
    n
}

fn push_port_noun(s: &mut String, n: usize)
    ensures
        final(s)@ == old(s)@ + port_noun(n as nat),
{
    if n == 1 {
        push_str(s, "port");
    } else {
        push_str(s, "ports");
    }
}

/// The summary of a host from the ports that answered a TCP scan: `None`
/// when no port was found open or refused, else an `"alive"` host that keeps
/// every port detail and states the counts in its detail line.
pub fn tcp_host_result(host: &str, port_results: Vec<PortScanDetail>) -> (r: Option<ScanHostResult>)
    ensures
        ({
            let open = count_status(details_view(port_results@), "open"@);
            let refused = count_status(details_view(port_results@), "refused"@);
            match r {
                None => open == 0 && refused == 0,
                Some(h) => {
                    &&& open != 0 || refused != 0
                    &&& h.host@ == host@
                    &&& h.status@ == "alive"@
                    &&& h.ports@ == port_results@
                    &&& h.detail@ == tcp_detail(open, refused)
                },
            }
        }),
{
    let open_count = count_with_status(&port_results, "open");
    let refused_count = count_with_status(&port_results, "refused");
    if open_count == 0 && refused_count == 0 {
        return None;
    }
    let mut detail = String::new();
    if refused_count == 0 {
        push_str(&mut detail, "Found ");
        push_decimal(&mut detail, open_count);
        push_str(&mut detail, " open TCP ");
        push_port_noun(&mut detail, open_count);
    } else if open_count == 0 {
        push_str(&mut detail, "Connection refused on ");
        push_decimal(&mut detail, refused_count);
        push_str(&mut detail, " TCP ");
        push_port_noun(&mut detail, refused_count);
        push_str(&mut detail, " (RST received; host is online)");
    } else {
        push_str(&mut detail, "Found ");
        push_decimal(&mut detail, open_count);
        push_str(&mut detail, " open TCP ");
        push_port_noun(&mut detail, open_count);
        push_str(&mut detail, "; ");
        push_decimal(&mut detail, refused_count);
        push_str(&mut detail, " TCP ");
        push_port_noun(&mut detail, refused_count);
        push_str(&mut detail, " refused the connection");
    }
    Some(ScanHostResult {
        host: string_of(host),
        status: string_of("alive"),
        ports: port_results,
        detail,
    })
}


/// What connecting to one port of a host came to.
pub enum ConnectOutcome {
    /// The connection was accepted; the banner is what the service said, if anything.
    Connected(Option<String>),
    /// The host answered with a reset: the port is closed but the host is online.
    Refused,
    /// The connection timed out or failed in another way.
    NoAnswer,
}

/// The detail recorded for one port: open with its banner, refused, or
/// nothing when the port gave no answer.
pub fn port_probe_detail(port: u16, outcome: ConnectOutcome) -> (r: Option<PortScanDetail>)
    ensures
        match outcome {
            ConnectOutcome::Connected(banner) => r matches Some(d) && d.port == port && d.status@
                == "open"@ && d.banner == banner,
            ConnectOutcome::Refused => r matches Some(d) && d.port == port && d.status@
                == "refused"@ && d.banner is None,
            ConnectOutcome::NoAnswer => r is None,
        },
{
    match outcome {
        ConnectOutcome::Connected(banner) => Some(
            PortScanDetail { port, status: string_of("open"), banner },
        ),
        ConnectOutcome::Refused => Some(
            PortScanDetail { port, status: string_of("refused"), banner: None },
        ),
        ConnectOutcome::NoAnswer => None,
    }
}

/// The details of the ports that answered, in probe order.
pub open spec fn answered_details(probes: Seq<(u16, ConnectOutcome)>) -> Seq<PortScanDetailView>
    decreases probes.len(),
{
    if probes.len() == 0 {
        Seq::<PortScanDetailView>::empty()
    } else {
        let rest = answered_details(probes.drop_last());
        let (port, outcome) = probes.last();
        match outcome {
            ConnectOutcome::Connected(banner) => rest.push(
                PortScanDetailView { port, status: "open"@, banner: banner.deep_view() },
            ),
            ConnectOutcome::Refused => rest.push(
                PortScanDetailView { port, status: "refused"@, banner: None },
            ),
            ConnectOutcome::NoAnswer => rest,
        }
    }
}

/// Whether a probe got an answer: the port was open or refused.
pub open spec fn answered(o: ConnectOutcome) -> bool {
    !(o is NoAnswer)
}

/// How many of the first `i` probes got an answer.
pub open spec fn answered_before(probes: Seq<(u16, ConnectOutcome)>, i: int) -> nat
    decreases i,
{
    if i <= 0 {
        0
    } else {
        answered_before(probes, i - 1) + if answered(probes[i - 1].1) {
            1nat
        } else {
            0nat
        }
    }
}

proof fn lemma_answered_before_prefix(probes: Seq<(u16, ConnectOutcome)>, i: int)
    requires
        probes.len() > 0,
        i <= probes.len() - 1,
    ensures
        answered_before(probes.drop_last(), i) == answered_before(probes, i),
    decreases i,
{
    if i > 0 {
        lemma_answered_before_prefix(probes, i - 1);
        assert(probes.drop_last()[i - 1] == probes[i - 1]);
    }
}

proof fn lemma_answered_before_grows(probes: Seq<(u16, ConnectOutcome)>, i: int, j: int)
    requires
        i <= j,
    ensures
        answered_before(probes, i) <= answered_before(probes, j),
    decreases j - i,
{
    if i < j {
        lemma_answered_before_grows(probes, i, j - 1);
    }
}

proof fn lemma_none_answered(probes: Seq<(u16, ConnectOutcome)>, i: int)
    requires
        i <= probes.len(),
        forall|k: int| 0 <= k < i ==> !answered(#[trigger] probes[k].1),
    ensures
        answered_before(probes, i) == 0,
    decreases i,
{
    if i > 0 {
        lemma_none_answered(probes, i - 1);
    }
}

proof fn lemma_count_status_positive(ds: Seq<PortScanDetailView>, k: int)
    requires
        0 <= k < ds.len(),
    ensures
        count_status(ds, ds[k].status) > 0,
    decreases ds.len(),
{
    if k < ds.len() - 1 {
        lemma_count_status_positive(ds.drop_last(), k);
        assert(ds.drop_last()[k] == ds[k]);
    }
}

/// Each probe that got an answer is recorded, in probe order, at its place
/// among the answered probes: a port that accepted the connection as open
/// with the banner its service sent, a port that refused it as refused
/// without a banner; probes without an answer leave no detail.
pub proof fn lemma_answered_details_follow_probes(probes: Seq<(u16, ConnectOutcome)>)
    ensures
        answered_details(probes).len() == answered_before(probes, probes.len() as int),
        forall|i: int|
            0 <= i < probes.len() ==> match #[trigger] probes[i].1 {
                ConnectOutcome::Connected(b) => answered_details(probes)[answered_before(
                    probes,
                    i,
                ) as int] == PortScanDetailView {
                    port: probes[i].0,
                    status: "open"@,
                    banner: b.deep_view(),
                },
                ConnectOutcome::Refused => answered_details(probes)[answered_before(
                    probes,
                    i,
                ) as int] == PortScanDetailView { port: probes[i].0, status: "refused"@, banner: None },
                ConnectOutcome::NoAnswer => true,
            },
    decreases probes.len(),
{
    if probes.len() > 0 {
        let n = probes.len() as int;
        let pre = probes.drop_last();
        lemma_answered_details_follow_probes(pre);
        lemma_answered_before_prefix(probes, n - 1);
        let d = answered_details(probes);
        let dp = answered_details(pre);
        assert forall|i: int| 0 <= i < probes.len() implies match #[trigger] probes[i].1 {
            ConnectOutcome::Connected(b) => d[answered_before(probes, i) as int]
                == PortScanDetailView { port: probes[i].0, status: "open"@, banner: b.deep_view() },
            ConnectOutcome::Refused => d[answered_before(probes, i) as int] == PortScanDetailView {
                port: probes[i].0,
                status: "refused"@,
                banner: None,
            },
            ConnectOutcome::NoAnswer => true,
        } by {
            if i < n - 1 && answered(probes[i].1) {
                lemma_answered_before_prefix(probes, i);
                lemma_answered_before_prefix(probes, i + 1);
                lemma_answered_before_grows(probes, i + 1, n - 1);
                assert(pre[i] == probes[i]);
                assert(answered_before(probes, i) < dp.len());
                assert(d[answered_before(probes, i) as int] == dp[answered_before(probes, i) as int]);
            }
        }
    }
}

/// The summary of a host from the outcome of each port probe, in probe
/// order: the ports that answered are kept as details and summed up as
/// [`tcp_host_result`] does.
pub fn tcp_probe_report(host: &str, probes: Vec<(u16, ConnectOutcome)>) -> (r: Option<
    ScanHostResult,
>)
    ensures
        ({
            let details = answered_details(probes@);
            let open = count_status(details, "open"@);
            let refused = count_status(details, "refused"@);
            match r {
                None => open == 0 && refused == 0,
                Some(h) => {
                    &&& open != 0 || refused != 0
                    &&& h.host@ == host@
                    &&& h.status@ == "alive"@
                    &&& h@.ports == details
                    &&& h.detail@ == tcp_detail(open, refused)
                },
            }
        }),
        r is None <==> forall|i: int| 0 <= i < probes@.len() ==> !answered(#[trigger] probes@[i].1),
        r matches Some(h) ==> h@.ports.len() == answered_before(probes@, probes@.len() as int),
        r matches Some(h) ==> forall|i: int|
            0 <= i < probes@.len() ==> match #[trigger] probes@[i].1 {
                ConnectOutcome::Connected(b) => h@.ports[answered_before(probes@, i) as int]
                    == PortScanDetailView { port: probes@[i].0, status: "open"@, banner: b.deep_view() },
                ConnectOutcome::Refused => h@.ports[answered_before(probes@, i) as int]
                    == PortScanDetailView { port: probes@[i].0, status: "refused"@, banner: None },
                ConnectOutcome::NoAnswer => true,
            },
{
    let ghost all = probes@;
    proof {
        lemma_answered_details_follow_probes(all);
        let ds = answered_details(all);
        if exists|i: int| 0 <= i < all.len() && answered(#[trigger] all[i].1) {
            let i = choose|i: int| 0 <= i < all.len() && answered(#[trigger] all[i].1);
            lemma_answered_before_grows(all, i + 1, all.len() as int);
            lemma_count_status_positive(ds, answered_before(all, i) as int);
        } else {
            lemma_none_answered(all, all.len() as int);
        }
    }
    let mut details: Vec<PortScanDetail> = Vec::new();
    for item in it: probes
        invariant
            it.seq() == all,
            details_view(details@) == answered_details(all.take(it.index() as int)),
    {
        let ghost k = it.index() as int;
        proof {
            assert(all.take(k + 1).drop_last() == all.take(k));
            assert(all.take(k + 1).last() == all[k]);
        }
        let (port, outcome) = item;
        let d = port_probe_detail(port, outcome);
        match d {
            Some(detail) => {
                details.push(detail);
                assert(details_view(details@) =~= answered_details(all.take(k + 1)));
            },
            None => {},
        }
    }
    assert(all.take(all.len() as int) == all);
    tcp_host_result(host, details)
}

/// The summary of a host that was pinged: kept only when it answered
/// (`status` is `"alive"`), with no port details.
pub fn icmp_host_result(host: &str, status: String, detail: String) -> (r: Option<ScanHostResult>)
    ensures
        match r {
            None => status@ != "alive"@,
            Some(h) => status@ == "alive"@ && h.host@ == host@ && h.status == status && h.ports@.len()
                == 0 && h.detail == detail,
        },
{
    if str_equal(status.as_str(), "alive") {
        Some(ScanHostResult { host: string_of(host), status, ports: Vec::new(), detail })
    } else {
        None
    }
}

/// How a scanned host is reported while the scan runs, and the numbers of
/// its open ports: a host without a result is `"offline"`; one with open
/// ports is `"alive-with-port"`, else `"alive-no-port"`.
pub fn host_progress_status(result: &Option<ScanHostResult>) -> (r: (String, Vec<u16>))
    ensures
        match result {
            None => r.0@ == "offline"@ && r.1@.len() == 0,
            Some(h) => {
                &&& r.1@ == open_port_numbers(h@.ports)
                &&& r.0@ == if r.1@.len() == 0 {
                    "alive-no-port"@
                } else {
                    "alive-with-port"@
                }
            },
        },
{
    match result {
        None => (string_of("offline"), Vec::new()),
        Some(h) => {
            let mut open: Vec<u16> = Vec::new();
            let mut i: usize = 0;
            while i < h.ports.len()
                invariant
                    i <= h.ports.len(),
                    open@ == open_port_numbers(details_view(h.ports@.take(i as int))),
                decreases h.ports.len() - i,
            {
                proof {
                    assert(details_view(h.ports@.take(i + 1)).drop_last() == details_view(
                        h.ports@.take(i as int),
                    ));
                }
                if str_equal(h.ports[i].status.as_str(), "open") {
                    open.push(h.ports[i].port);
                }
                i = i + 1;
            }
            assert(h.ports@.take(h.ports.len() as int) == h.ports@);
            let status = if open.len() == 0 {
                string_of("alive-no-port")
            } else {
                string_of("alive-with-port")
            };
            (status, open)
        },
    }
}

} // verus!
