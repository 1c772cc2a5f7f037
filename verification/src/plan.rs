//! Checking a scan request and preparing the hosts and ports of a scan.

use vstd::prelude::*;
use vstd::utf8::is_ascii_chars;
use vstd::arithmetic::power2::pow2;
use crate::ports::{parse_port_list, port_list};
use crate::text::{
    ascii_lower, decimal, push_decimal, push_str, split_fields, str_equal, string_of, trim, trimmed,
};

verus! {

broadcast use vstd::string::group_string_axioms;

/// The most hosts that one scan may cover.
pub const MAX_HOSTS_PER_SCAN: usize = 256;

/// The ports probed when a request names none.
pub open spec fn default_ports() -> Seq<char> {
    "22,80,443,8080"@
}

/// The number of hosts probed at once when a request does not say.
pub const DEFAULT_CONCURRENCY: usize = 64;

/// The least and the most hosts probed at once.
pub const MIN_CONCURRENCY: usize = 1;
pub const MAX_CONCURRENCY: usize = 256;

/// The value of a run of decimal digits.
pub open spec fn digits_value(t: Seq<char>) -> nat
    decreases t.len(),
{
    if t.len() == 0 {
        0
    } else {
        digits_value(t.drop_last()) * 10 + ((t.last() as u32) - ('0' as u32)) as nat
    }
}

/// A number as the network parser of `ipnet` reads it: one to `max_digits`
/// decimal digits, leading zeros allowed, with a value below `upto`.
pub open spec fn parsed_number(t: Seq<char>, max_digits: nat, upto: nat) -> Option<nat> {
    if 1 <= t.len() <= max_digits && (forall|i: int| 0 <= i < t.len() ==> '0' <= #[trigger] t[i] <= '9')
        && digits_value(t) < upto {
        Some(digits_value(t))
    } else {
        None
    }
}

/// The address and prefix length of an IPv4 network in CIDR notation, as
/// `<ipnet::Ipv4Net as FromStr>::from_str` reads them: four numbers below
/// 256 of at most three digits, separated by dots, then a slash and a prefix
/// length below 33 of at most two digits, and nothing else.
pub open spec fn ipv4_cidr(s: Seq<char>) -> Option<(u32, u8)> {
    let halves = split_fields(s, '/', false);
    let octets = split_fields(halves[0], '.', false);
    if halves.len() != 2 || octets.len() != 4 {
        None
    } else {
        match (
            parsed_number(octets[0], 3, 256),
            parsed_number(octets[1], 3, 256),
            parsed_number(octets[2], 3, 256),
            parsed_number(octets[3], 3, 256),
            parsed_number(halves[1], 2, 33),
        ) {
            (Some(a), Some(b), Some(c), Some(d), Some(p)) => Some(
                ((a * 0x1000000 + b * 0x10000 + c * 0x100 + d) as u32, p as u8),
            ),
            _ => None,
        }
    }
}

/// The number of addresses in a network with prefix length `p`.
pub open spec fn block_size(p: u8) -> nat {
    pow2((32 - p) as nat)
}

/// The first address of the network of `addr` with prefix length `p`.
pub open spec fn network_address(addr: u32, p: u8) -> nat {
    (addr as nat / block_size(p)) * block_size(p)
}

/// The first host address: networks with prefixes shorter than 31 leave out
/// their network address.
pub open spec fn first_host(addr: u32, p: u8) -> nat {
    if p < 31 {
        network_address(addr, p) + 1
    } else {
        network_address(addr, p)
    }
}

/// The number of host addresses: networks with prefixes shorter than 31
/// leave out their network and broadcast addresses.
pub open spec fn host_count(p: u8) -> nat {
    if p < 31 {
        (block_size(p) - 2) as nat
    } else {
        block_size(p)
    }
}

/// Whether a scan can list and count `n` hosts: a task counts its hosts in
/// 32-bit signed numbers, and the list must fit in one vector on this
/// machine. Every network but those of prefix length 0 and 1 passes.
pub open spec fn listable(n: nat) -> bool {
    n <= i32::MAX && n <= isize::MAX / 8
}

/// The host addresses of a network, in increasing order, as
/// `ipnet::Ipv4Net::hosts` yields them.
pub open spec fn ipv4_hosts(addr: u32, p: u8) -> Seq<u32> {
    Seq::new(host_count(p), |i: int| (first_host(addr, p) + i) as u32)
}

/// The host addresses of a network are distinct, so a scan that hands out
/// each host index once probes each address once.
pub proof fn lemma_hosts_distinct(addr: u32, p: u8)
    requires
        p <= 32,
    ensures
        forall|i: int, j: int|
            0 <= i < j < ipv4_hosts(addr, p).len() ==> ipv4_hosts(addr, p)[i] != ipv4_hosts(
                addr,
                p,
            )[j],
{
    let e = (32 - p) as nat;
    let b = block_size(p);
    let top = pow2(p as nat);
    vstd::arithmetic::power2::lemma_pow2_pos(e);
    vstd::arithmetic::power2::lemma_pow2_adds(p as nat, e);
    vstd::arithmetic::power2::lemma2_to64();
    assert(top * b == 0x1_0000_0000) by {
        assert((p as nat) + e == 32);
    }
    let q = addr as nat / b;
    let r = addr as nat % b;
    vstd::arithmetic::div_mod::lemma_fundamental_div_mod(addr as int, b as int);
    assert(addr == b * q + r);
    assert(0 <= r < b) by {
        vstd::arithmetic::div_mod::lemma_mod_bound(addr as int, b as int);
    }
    assert(q < top) by (nonlinear_arith)
        requires
            addr == b * q + r,
            0 <= r,
            (addr as int) < 0x1_0000_0000,
            top * b == 0x1_0000_0000,
            b > 0,
    {
        if q >= top {
            assert(b * q >= b * top);
        }
    }
    assert(q * b + b <= 0x1_0000_0000) by (nonlinear_arith)
        requires
            q < top,
            top * b == 0x1_0000_0000,
            b > 0,
    {
        assert(q + 1 <= top);
        assert((q + 1) * b <= top * b);
    }
    assert(network_address(addr, p) == q * b);
    if p < 31 {
        assert(b >= 4) by {
            vstd::arithmetic::power2::lemma2_to64();
            if e > 2 {
                vstd::arithmetic::power2::lemma_pow2_strictly_increases(2, e);
            }
        }
    }
    assert(first_host(addr, p) + host_count(p) <= 0x1_0000_0000);
    let hs = ipv4_hosts(addr, p);
    assert forall|i: int, j: int| 0 <= i < j < hs.len() implies hs[i] != hs[j] by {
        assert(hs[i] == (first_host(addr, p) + i) as u32);
        assert(hs[j] == (first_host(addr, p) + j) as u32);
    }
}

/// Parses an IPv4 network in CIDR notation with
/// `<ipnet::Ipv4Net as FromStr>::from_str`, giving its address and prefix
/// length. The contract claims what the crate's parser does (`parser.rs`,
/// `read_ipv4_net` read to the end of the text), as [`ipv4_cidr`] states it.
#[verifier::external_body]
fn parse_ipv4_cidr(s: &str) -> (r: Option<(u32, u8)>)
    ensures
        r == ipv4_cidr(s@),
{
    s.parse::<ipnet::Ipv4Net>().ok().map(|n| (u32::from(n.addr()), n.prefix_len()))
}

/// `Iterator::count` of `ipnet::Ipv4Net::hosts`. The contract claims what
/// the crate's source shows: the hosts run from the network address to the
/// broadcast address, both left out when the prefix is shorter than 31, so
/// their number is [`host_count`] of the prefix length. The network is built
/// with `Ipv4Net::new`, which accepts the prefix lengths up to 32.
#[verifier::external_body]
fn ipv4_host_count(addr: u32, prefix: u8) -> (n: usize)
    requires
        prefix <= 32,
    ensures
        n == host_count(prefix),
{
    ipnet::Ipv4Net::new(addr.into(), prefix).unwrap().hosts().count()
}

/// The host addresses of a network, collected from `ipnet::Ipv4Net::hosts`.
/// The contract claims they are [`ipv4_hosts`]: consecutive addresses from
/// the first host on, as the crate's iterator yields them. The bound on
/// their number is the machine's: the collected vector, even at twice its
/// length, stays within the `isize::MAX` bytes that a `Vec` may hold.
#[verifier::external_body]
fn ipv4_host_list(addr: u32, prefix: u8) -> (v: Vec<u32>)
    requires
        prefix <= 32,
        listable(host_count(prefix)),
    ensures
        v@ == ipv4_hosts(addr, prefix),
{
    ipnet::Ipv4Net::new(addr.into(), prefix).unwrap().hosts().map(u32::from).collect()
}

/// What `str::to_lowercase` gives for `s`.
pub uninterp spec fn unicode_lowercase(s: Seq<char>) -> Seq<char>;

/// `str::to_lowercase`: the Unicode lowercase of a string. Its result is
/// named by [`unicode_lowercase`]; beyond that, only ASCII text is claimed
/// of: its letters `A` to `Z` become `a` to `z` and the rest stays, one
/// character for each.
#[verifier::external_body]
pub(crate) fn to_lowercase(s: &str) -> (r: String)
    ensures
        r@ == unicode_lowercase(s@),
        is_ascii_chars(s@) ==> r@ == s@.map_values(|c: char| ascii_lower(c)),
{
    s.to_lowercase()
}

/// The dotted-quad text of an IPv4 address, as `Ipv4Addr` displays it.
pub open spec fn dotted_quad(a: u32) -> Seq<char> {
    decimal((a / 0x1000000) as nat) + "."@ + decimal(((a / 0x10000) % 256) as nat) + "."@
        + decimal(((a / 0x100) % 256) as nat) + "."@ + decimal((a % 256) as nat)
}

/// The dotted-quad text of an IPv4 address.
pub fn ipv4_to_string(a: u32) -> (r: String)
    ensures
        r@ == dotted_quad(a),
{
    let mut s = String::new();
    push_decimal(&mut s, (a / 0x1000000) as usize);
    push_str(&mut s, ".");
    push_decimal(&mut s, ((a / 0x10000) % 256) as usize);
    push_str(&mut s, ".");
    push_decimal(&mut s, ((a / 0x100) % 256) as usize);
    push_str(&mut s, ".");
    push_decimal(&mut s, (a % 256) as usize);
    s
}

/// Whether a scan type asks for ping probes rather than TCP probes.
pub fn is_icmp_scan(scan_type: &str) -> (r: bool)
    ensures
        r == (scan_type@ == "icmp"@),
{
    str_equal(scan_type, "icmp")
}

/// A checked scan request.
pub struct ScanPlan {
    /// The network, trimmed of white space.
    pub cidr: String,
    pub total_hosts: usize,
    /// `"tcp"` or `"icmp"`.
    pub scan_type: String,
    pub ports: String,
    pub max_concurrency: usize,
}

/// Why a scan request is refused.
#[derive(Debug, PartialEq, Eq)]
pub enum ScanRequestError {
    InvalidCidr,
    NoUsableHosts,
    TooManyHosts(usize),
    UnsupportedScanType,
}

/// The concurrency a request asks for, the default filled in and clamped to
/// the allowed range.
pub open spec fn effective_concurrency(requested: Option<usize>) -> usize {
    let c = match requested {
        Some(c) => c,
        None => DEFAULT_CONCURRENCY,
    };
    if c < MIN_CONCURRENCY {
        MIN_CONCURRENCY
    } else if c > MAX_CONCURRENCY {
        MAX_CONCURRENCY
    } else {
        c
    }
}

/// A requested concurrency is kept as it is when it lies in the allowed
/// range, replaced by the nearest bound when it lies outside, and the
/// default is used when none is requested; so the effective concurrency
/// never falls as the request grows.
pub proof fn lemma_concurrency_clamped(c: usize, d: usize)
    ensures
        MIN_CONCURRENCY <= c <= MAX_CONCURRENCY ==> effective_concurrency(Some(c)) == c,
        c < MIN_CONCURRENCY ==> effective_concurrency(Some(c)) == MIN_CONCURRENCY,
        c > MAX_CONCURRENCY ==> effective_concurrency(Some(c)) == MAX_CONCURRENCY,
        effective_concurrency(None) == DEFAULT_CONCURRENCY,
        c <= d ==> effective_concurrency(Some(c)) <= effective_concurrency(Some(d)),
{
}

/// Checks a scan request. The network is trimmed and parsed; it must have
/// between one and [`MAX_HOSTS_PER_SCAN`] host addresses. The scan type is
/// taken in lowercase and must be `"tcp"` or `"icmp"`. Missing ports become
/// [`default_ports`] and the concurrency is clamped to the allowed range.
pub fn plan_scan_request(
    cidr: &str,
    scan_type: &str,
    ports: Option<String>,
    max_concurrency: Option<usize>,
) -> (r: Result<ScanPlan, ScanRequestError>)
    ensures
        r matches Ok(plan) ==> {
            &&& 1 <= plan.total_hosts <= MAX_HOSTS_PER_SCAN
            &&& MIN_CONCURRENCY <= plan.max_concurrency <= MAX_CONCURRENCY
            &&& plan.scan_type@ == "tcp"@ || plan.scan_type@ == "icmp"@
            &&& match max_concurrency {
                None => plan.max_concurrency == DEFAULT_CONCURRENCY,
                Some(c) => {
                    &&& (MIN_CONCURRENCY <= c && c <= MAX_CONCURRENCY) ==> plan.max_concurrency == c
                    &&& c < MIN_CONCURRENCY ==> plan.max_concurrency == MIN_CONCURRENCY
                    &&& c > MAX_CONCURRENCY ==> plan.max_concurrency == MAX_CONCURRENCY
                },
            }
        },
        match ipv4_cidr(trim(cidr@)) {
            None => r == Err::<ScanPlan, ScanRequestError>(ScanRequestError::InvalidCidr),
            Some((_, p)) => {
                let n = host_count(p);
                let t = unicode_lowercase(scan_type@);
                if n == 0 {
                    r == Err::<ScanPlan, ScanRequestError>(ScanRequestError::NoUsableHosts)
                } else if n > MAX_HOSTS_PER_SCAN {
                    r == Err::<ScanPlan, ScanRequestError>(ScanRequestError::TooManyHosts(n as usize))
                } else if t != "tcp"@ && t != "icmp"@ {
                    r == Err::<ScanPlan, ScanRequestError>(ScanRequestError::UnsupportedScanType)
                } else {
                    r matches Ok(plan) && {
                        &&& plan.cidr@ == trim(cidr@)
                        &&& plan.total_hosts == n
                        &&& plan.scan_type@ == t
                        &&& plan.ports@ == match ports {
                            Some(s) => s@,
                            None => default_ports(),
                        }
                        &&& plan.max_concurrency == effective_concurrency(max_concurrency)
                    }
                }
            },
        },
{
    let cidr = trimmed(cidr);
    let (addr, prefix) = match parse_ipv4_cidr(cidr.as_str()) {
        Some(parsed) => parsed,
        None => return Err(ScanRequestError::InvalidCidr),
    };
    let total_hosts = ipv4_host_count(addr, prefix);
    if total_hosts == 0 {
        return Err(ScanRequestError::NoUsableHosts);
    }
    if total_hosts > MAX_HOSTS_PER_SCAN {
        return Err(ScanRequestError::TooManyHosts(total_hosts));
    }
    let scan_type = to_lowercase(scan_type);
    if !str_equal(scan_type.as_str(), "tcp") && !str_equal(scan_type.as_str(), "icmp") {
        return Err(ScanRequestError::UnsupportedScanType);
    }
    let ports = match ports {
        Some(p) => p,
        None => string_of("22,80,443,8080"),
    };
    let requested = match max_concurrency {
        Some(c) => c,
        None => DEFAULT_CONCURRENCY,
    };
    let max_concurrency = if requested < MIN_CONCURRENCY {
        MIN_CONCURRENCY
    } else if requested > MAX_CONCURRENCY {
        MAX_CONCURRENCY
    } else {
        requested
    };
    Ok(ScanPlan { cidr, total_hosts, scan_type, ports, max_concurrency })
}

/// The message with which a refused request is answered.
pub open spec fn request_error_text(e: ScanRequestError) -> Seq<char> {
    match e {
        ScanRequestError::InvalidCidr => "Invalid CIDR: invalid IP address syntax"@,
        ScanRequestError::NoUsableHosts => "The CIDR does not contain any usable host addresses"@,
        ScanRequestError::TooManyHosts(n) => "Host count ("@ + decimal(n as nat)
            + ") exceeds the per-scan limit of 256"@,
        ScanRequestError::UnsupportedScanType => "Unsupported scan type"@,
    }
}

/// The message with which a refused request is answered.
pub fn request_error_message(e: &ScanRequestError) -> (r: String)
    ensures
        r@ == request_error_text(*e),
{
    match e {
        ScanRequestError::InvalidCidr => string_of("Invalid CIDR: invalid IP address syntax"),
        ScanRequestError::NoUsableHosts => string_of(
            "The CIDR does not contain any usable host addresses",
        ),
        ScanRequestError::TooManyHosts(n) => {
            let mut s = string_of("Host count (");
            push_decimal(&mut s, *n);
            push_str(&mut s, ") exceeds the per-scan limit of 256");
            s
        },
        ScanRequestError::UnsupportedScanType => string_of("Unsupported scan type"),
    }
}

/// How a stored scan task can start.
pub enum ScanStart {
    /// The stored network does not parse: the task fails.
    InvalidCidr,
    /// The network has more hosts than a task can count or this machine can
    /// list: the task fails.
    TooManyHosts,
    /// The network has no host address: the task completes at once.
    NoHosts,
    /// The hosts to probe, in address order, and the ports to probe on each.
    Ready { hosts: Vec<u32>, ports: Vec<u16> },
}

/// The hosts and ports of a stored scan task, whatever the size of its
/// network.
pub fn prepare_scan(cidr: &str, ports: &str) -> (r: ScanStart)
    ensures
        match ipv4_cidr(cidr@) {
            None => r is InvalidCidr,
            Some((addr, p)) => if !listable(host_count(p)) {
                r is TooManyHosts
            } else if host_count(p) == 0 {
                r is NoHosts
            } else {
                r matches ScanStart::Ready { hosts, ports: ps } && hosts@ == ipv4_hosts(addr, p)
                    && ps@ == port_list(ports@)
            },
        },
{
    let (addr, prefix) = match parse_ipv4_cidr(cidr) {
        Some(parsed) => parsed,
        None => return ScanStart::InvalidCidr,
    };
    let count = ipv4_host_count(addr, prefix);
    if count > i32::MAX as usize || count > (isize::MAX as usize) / 8 {
        return ScanStart::TooManyHosts;
    }
    let hosts = ipv4_host_list(addr, prefix);
    if hosts.len() == 0 {
        return ScanStart::NoHosts;
    }
    let ports = parse_port_list(ports);
    ScanStart::Ready { hosts, ports }
}

} // verus!
