//! Reading the container's network setup from the text of system files:
//! the default route from the kernel routing table, the name servers from
//! the resolver configuration, and the raw-socket capability from the
//! process status.

use vstd::prelude::*;
use crate::plan::{dotted_quad, ipv4_to_string};
use crate::ports::unsigned_digits;
use crate::text::{
    chars_of, has_prefix, lines, lines_of, push_str, split_whitespace, str_equal, string_of,
    strings_view, words, starts_with,
};

verus! {

broadcast use vstd::string::group_string_axioms;

/// Whether `c` is a hexadecimal digit of either case.
pub open spec fn is_hex_digit(c: char) -> bool {
    ('0' <= c <= '9') || ('a' <= c <= 'f') || ('A' <= c <= 'F')
}

/// The value of a hexadecimal digit.
pub open spec fn hex_value(c: char) -> nat {
    if '0' <= c <= '9' {
        ((c as u32) - 48) as nat
    } else if 'a' <= c <= 'f' {
        ((c as u32) - 87) as nat
    } else {
        ((c as u32) - 55) as nat
    }
}

/// The value of a run of hexadecimal digits.
pub open spec fn hex_digits_value(s: Seq<char>) -> nat
    decreases s.len(),
{
    if s.len() == 0 {
        0
    } else {
        hex_digits_value(s.drop_last()) * 16 + hex_value(s.last())
    }
}

/// What `from_str_radix(s, 16)` gives for an unsigned type whose largest
/// value is `max`: one or more hexadecimal digits after an optional `+`.
pub open spec fn parse_hex(s: Seq<char>, max: nat) -> Option<nat> {
    let d = unsigned_digits(s);
    if d.len() > 0 && (forall|i: int| 0 <= i < d.len() ==> is_hex_digit(#[trigger] d[i]))
        && hex_digits_value(d) <= max {
        Some(hex_digits_value(d))
    } else {
        None
    }
}

/// `parse_hex` of a string, for a bound that fits in a `u64`.
fn parse_hex_str(s: &str, max: u64) -> (r: Option<u64>)
    ensures
        match parse_hex(s@, max as nat) {
            Some(n) => r == Some(n as u64),
            None => r is None,
        },
{
    let v = chars_of(s);
    let hi = v.len();
    let start: usize = if hi > 1 && v[0] == '+' { 1 } else { 0 };
    assert(unsigned_digits(s@) == v@.subrange(start as int, hi as int));
    if start == hi {
        return None;
    }
    let mut acc: u128 = 0;
    let mut over = false;
    let mut j = start;
    while j < hi
        invariant
            v@ == s@,
            hi == v.len(),
            start <= j <= hi,
            start < hi,
            unsigned_digits(s@) == v@.subrange(start as int, hi as int),
            forall|k: int| start <= k < j ==> is_hex_digit(#[trigger] v@[k]),
            !over ==> acc == hex_digits_value(v@.subrange(start as int, j as int)) && acc <= max,
            over ==> hex_digits_value(v@.subrange(start as int, j as int)) > max,
        decreases hi - j,
    {
        let c = v[j];
        let d: u32 = if '0' <= c && c <= '9' {
            (c as u32) - 48
        } else if 'a' <= c && c <= 'f' {
            (c as u32) - 87
        } else if 'A' <= c && c <= 'F' {
            (c as u32) - 55
        } else {
            let ghost ds = v@.subrange(start as int, hi as int);
            assert(ds[j - start] == c);
            assert(!is_hex_digit(ds[j - start]));
            return None;
        };
        proof {
            let pre = v@.subrange(start as int, j as int);
            assert(v@.subrange(start as int, j + 1) == pre.push(c));
            assert(pre.push(c).drop_last() == pre);
        }
        if !over {
            let nv: u128 = acc * 16 + (d as u128);
            if nv > max as u128 {
                over = true;
            } else {
                acc = nv;
            }
        }
        j = j + 1;
    }
    let ghost ds = v@.subrange(start as int, hi as int);
    assert forall|i: int| 0 <= i < ds.len() implies is_hex_digit(#[trigger] ds[i]) by {
        assert(ds[i] == v@[start + i]);
    }
    if over {
        None
    } else {
        Some(acc as u64)
    }
}

/// `g` with its four bytes in reverse order, as `u32::swap_bytes` gives it.
pub open spec fn swap_bytes(g: nat) -> nat {
    (g % 256) * 0x1000000 + ((g / 0x100) % 256) * 0x10000 + ((g / 0x10000) % 256) * 0x100 + (g
        / 0x1000000) % 256
}

/// The default route named by one line of the routing table: a line whose
/// destination (second column) is `00000000` and whose gateway (third
/// column) is hexadecimal gives `"<interface> via <gateway>"`; the table
/// holds the gateway in network byte order.
#[verifier::opaque]
pub open spec fn route_of_line(l: Seq<char>) -> Option<Seq<char>> {
    let f = words(l);
    if f.len() >= 3 && f[1] == "00000000"@ {
        match parse_hex(f[2], u32::MAX as nat) {
            Some(g) => Some(f[0] + " via "@ + dotted_quad(swap_bytes(g) as u32)),
            None => None,
        }
    } else {
        None
    }
}

/// The first default route among table lines.
pub open spec fn first_route(ls: Seq<Seq<char>>) -> Option<Seq<char>>
    decreases ls.len(),
{
    if ls.len() == 0 {
        None
    } else {
        match route_of_line(ls[0]) {
            Some(r) => Some(r),
            None => first_route(ls.drop_first()),
        }
    }
}

/// The default route of a routing table; its first line is the header.
pub open spec fn default_route_of(table: Seq<char>) -> Option<Seq<char>> {
    let ls = lines_of(table);
    if ls.len() == 0 {
        None
    } else {
        first_route(ls.drop_first())
    }
}

fn route_of_line_exec(l: &str) -> (r: Option<String>)
    ensures
        match route_of_line(l@) {
            Some(t) => r matches Some(s) && s@ == t,
            None => r is None,
        },
{
    reveal(route_of_line);
    let f = split_whitespace(l);
    if f.len() >= 3 && str_equal(f[1].as_str(), "00000000") {
        assert(f[1]@ == words(l@)[1]);
        assert(f[2]@ == words(l@)[2]);
        assert(f[0]@ == words(l@)[0]);
        match parse_hex_str(f[2].as_str(), 0xffff_ffff) {
            Some(g) => {
                let g = g as u32;
                let swapped: u32 = (g % 256) * 0x1000000 + ((g / 0x100) % 256) * 0x10000 + ((g
                    / 0x10000) % 256) * 0x100 + (g / 0x1000000) % 256;
                let mut s = string_of(f[0].as_str());
                push_str(&mut s, " via ");
                let ip = ipv4_to_string(swapped);
                push_str(&mut s, ip.as_str());
                Some(s)
            },
            None => None,
        }
    } else {
        proof {
            if words(l@).len() >= 3 {
                assert(f[1]@ == words(l@)[1]);
            }
        }
        None
    }
}

/// The default route of the kernel routing table text.
pub fn default_route(table: &str) -> (r: Option<String>)
    ensures
        match default_route_of(table@) {
            Some(t) => r matches Some(s) && s@ == t,
            None => r is None,
        },
{
    let ls = lines(table);
    let ghost all = lines_of(table@);
    if ls.len() == 0 {
        return None;
    }
    let mut i: usize = 1;
    assert(all.drop_first() == all.subrange(1, all.len() as int));
    while i < ls.len()
        invariant
            strings_view(ls@) == all,
            all == lines_of(table@),
            1 <= i <= ls.len(),
            first_route(all.drop_first()) == first_route(all.subrange(i as int, all.len() as int)),
        decreases ls.len() - i,
    {
        let ghost rest = all.subrange(i as int, all.len() as int);
        assert(rest[0] == ls@[i as int]@);
        assert(rest.drop_first() == all.subrange(i + 1, all.len() as int));
        let found = route_of_line_exec(ls[i].as_str());
        if found.is_some() {
            return found;
        }
        i = i + 1;
    }
    assert(all.subrange(i as int, all.len() as int).len() == 0);
    None
}

/// The name server of one resolver line: a line of exactly two words, the
/// first `nameserver`.
pub open spec fn nameserver_of_line(l: Seq<char>) -> Option<Seq<char>> {
    let w = words(l);
    if w.len() == 2 && w[0] == "nameserver"@ {
        Some(w[1])
    } else {
        None
    }
}

/// The name servers of resolver lines, in order.
pub open spec fn nameservers(ls: Seq<Seq<char>>) -> Seq<Seq<char>>
    decreases ls.len(),
{
    if ls.len() == 0 {
        Seq::empty()
    } else {
        match nameserver_of_line(ls.last()) {
            Some(s) => nameservers(ls.drop_last()).push(s),
            None => nameservers(ls.drop_last()),
        }
    }
}

/// The name servers listed in resolver configuration text, in order.
pub fn dns_servers(conf: &str) -> (r: Vec<String>)
    ensures
        strings_view(r@) == nameservers(lines_of(conf@)),
{
    let ls = lines(conf);
    let ghost all = lines_of(conf@);
    let mut out: Vec<String> = Vec::new();
    let mut i: usize = 0;
    while i < ls.len()
        invariant
            strings_view(ls@) == all,
            all == lines_of(conf@),
            i <= ls.len(),
            strings_view(out@) == nameservers(all.take(i as int)),
        decreases ls.len() - i,
    {
        assert(all.take(i + 1).drop_last() == all.take(i as int));
        assert(all.take(i + 1).last() == ls@[i as int]@);
        let w = split_whitespace(ls[i].as_str());
        if w.len() == 2 && str_equal(w[0].as_str(), "nameserver") {
            assert(w[0]@ == words(ls@[i as int]@)[0]);
            assert(w[1]@ == words(ls@[i as int]@)[1]);
            let server = string_of(w[1].as_str());
            out.push(server);
            assert(strings_view(out@) =~= nameservers(all.take(i + 1)));
        } else {
            proof {
                if words(ls@[i as int]@).len() == 2 {
                    assert(w[0]@ == words(ls@[i as int]@)[0]);
                }
            }
        }
        i = i + 1;
    }
    assert(all.take(all.len() as int) == all);
    out
}

/// What one status line says of the raw-socket capability: a `CapEff:` line
/// whose second word is a hexadecimal `u64` answers with bit 13 of it.
#[verifier::opaque]
pub open spec fn cap_of_line(l: Seq<char>) -> Option<bool> {
    let w = words(l);
    if has_prefix(l, "CapEff:"@) && w.len() >= 2 {
        match parse_hex(w[1], u64::MAX as nat) {
            Some(v) => Some((v / 8192) % 2 == 1),
            None => None,
        }
    } else {
        None
    }
}

/// A `CapEff:` line whose second word is the hexadecimal number `v` answers
/// whether bit 13 (`CAP_NET_RAW`) of `v` is set, whatever its other bits.
pub proof fn lemma_cap_line_reads_bit_13(l: Seq<char>, v: u64)
    requires
        has_prefix(l, "CapEff:"@),
        words(l).len() >= 2,
        parse_hex(words(l)[1], u64::MAX as nat) == Some(v as nat),
    ensures
        cap_of_line(l) == Some((v >> 13u64) & 1u64 == 1u64),
{
    reveal(cap_of_line);
    assert(((v >> 13u64) & 1u64 == 1u64) == ((v / 8192) % 2 == 1)) by (bit_vector);
}

/// The first answer among status lines; none means no capability.
pub open spec fn cap_in_lines(ls: Seq<Seq<char>>) -> bool
    decreases ls.len(),
{
    if ls.len() == 0 {
        false
    } else {
        match cap_of_line(ls[0]) {
            Some(b) => b,
            None => cap_in_lines(ls.drop_first()),
        }
    }
}

fn cap_of_line_exec(l: &str) -> (r: Option<bool>)
    ensures
        r == cap_of_line(l@),
{
    reveal(cap_of_line);
    if starts_with(l, "CapEff:") {
        let w = split_whitespace(l);
        if w.len() >= 2 {
            assert(w[1]@ == words(l@)[1]);
            match parse_hex_str(w[1].as_str(), 0xffff_ffff_ffff_ffff) {
                Some(v) => {
                    return Some((v / 8192) % 2 == 1);
                },
                None => {},
            }
        }
    }
    None
}

/// Whether process status text grants the raw-socket capability
/// (`CAP_NET_RAW`, bit 13 of the effective set).
pub fn cap_net_raw(status: &str) -> (r: bool)
    ensures
        r == cap_in_lines(lines_of(status@)),
{
    let ls = lines(status);
    let ghost all = lines_of(status@);
    let mut i: usize = 0;
    assert(all.subrange(0, all.len() as int) == all);
    while i < ls.len()
        invariant
            strings_view(ls@) == all,
            all == lines_of(status@),
            i <= ls.len(),
            cap_in_lines(all) == cap_in_lines(all.subrange(i as int, all.len() as int)),
        decreases ls.len() - i,
    {
        let ghost rest = all.subrange(i as int, all.len() as int);
        assert(rest[0] == ls@[i as int]@);
        assert(rest.drop_first() == all.subrange(i + 1, all.len() as int));
        match cap_of_line_exec(ls[i].as_str()) {
            Some(b) => {
                return b;
            },
            None => {},
        }
        i = i + 1;
    }
    assert(all.subrange(i as int, all.len() as int).len() == 0);
    false
}

} // verus!
