//! The comma-separated TCP port list of a scan request.
//!
//! A list such as `"22, 80,,443,x"` is split at each comma, every field is
//! trimmed of white space, and the fields that read as a `u16` are kept in
//! order; the others are dropped.

use vstd::prelude::*;
use crate::text::{bounds_match, chars_of, field_bounds, split_fields, trim, trim_bounds};

verus! {

/// Whether `c` is an ASCII decimal digit.
pub open spec fn is_digit(c: char) -> bool {
    '0' <= c <= '9'
}

/// The value of a run of ASCII digits.
pub open spec fn digits_value(s: Seq<char>) -> nat
    decreases s.len(),
{
    if s.len() == 0 {
        0
    } else {
        digits_value(s.drop_last()) * 10 + ((s.last() as u32) - 48) as nat
    }
}

/// The digits of an unsigned number: a single leading `+` is dropped when
/// something follows it.
pub open spec fn unsigned_digits(s: Seq<char>) -> Seq<char> {
    if s.len() > 1 && s[0] == '+' {
        s.drop_first()
    } else {
        s
    }
}

/// What `str::parse::<u16>` gives for `s`: a number of one or more ASCII
/// digits after an optional `+`, at most 65535.
pub open spec fn parse_u16(s: Seq<char>) -> Option<u16> {
    let d = unsigned_digits(s);
    if d.len() > 0 && (forall|i: int| 0 <= i < d.len() ==> is_digit(#[trigger] d[i]))
        && digits_value(d) <= 65535 {
        Some(digits_value(d) as u16)
    } else {
        None
    }
}

/// The port that one field stands for, if any.
pub open spec fn port_of_field(f: Seq<char>) -> Option<u16> {
    parse_u16(trim(f))
}

/// The ports of a sequence of fields, in order, skipping fields that are
/// not ports.
pub open spec fn ports_of_fields(fs: Seq<Seq<char>>) -> Seq<u16>
    decreases fs.len(),
{
    if fs.len() == 0 {
        Seq::<u16>::empty()
    } else {
        let rest = ports_of_fields(fs.drop_last());
        match port_of_field(fs.last()) {
            Some(p) => rest.push(p),
            None => rest,
        }
    }
}

/// The ports that a port list names.
pub open spec fn port_list(s: Seq<char>) -> Seq<u16> {
    ports_of_fields(split_fields(s, ',', false))
}

proof fn lemma_digits_value_grows(s: Seq<char>, c: char)
    requires
        is_digit(c),
    ensures
        digits_value(s.push(c)) == digits_value(s) * 10 + ((c as u32) - 48) as nat,
        digits_value(s.push(c)) >= digits_value(s),
{
    assert(s.push(c).drop_last() == s);
}

/// `parse_u16` of `v[lo..hi]`.
fn parse_u16_range(v: &Vec<char>, lo: usize, hi: usize) -> (r: Option<u16>)
    requires
        lo <= hi <= v.len(),
    ensures
        r == parse_u16(v@.subrange(lo as int, hi as int)),
{
    let ghost s = v@.subrange(lo as int, hi as int);
    let start = if hi - lo > 1 && v[lo] == '+' { lo + 1 } else { lo };
    assert(unsigned_digits(s) == v@.subrange(start as int, hi as int));
    if start == hi {
        return None;
    }
    let mut acc: u32 = 0;
    let mut over = false;
    let mut j = start;
    while j < hi
        invariant
            lo <= start <= j <= hi <= v.len(),
            start < hi,
            unsigned_digits(v@.subrange(lo as int, hi as int)) == v@.subrange(start as int, hi as int),
            forall|k: int| start <= k < j ==> is_digit(#[trigger] v@[k]),
            !over ==> acc == digits_value(v@.subrange(start as int, j as int)) && acc <= 65535,
            over ==> digits_value(v@.subrange(start as int, j as int)) > 65535,
        decreases hi - j,
    {
        let c = v[j];
        if !('0' <= c && c <= '9') {
            let ghost d = v@.subrange(start as int, hi as int);
            assert(d[j - start] == c);
            assert(!is_digit(d[j - start]));
            return None;
        }
        proof {
            lemma_digits_value_grows(v@.subrange(start as int, j as int), c);
            assert(v@.subrange(start as int, j + 1) == v@.subrange(start as int, j as int).push(c));
        }
        if !over {
            let nv = acc * 10 + ((c as u32) - 48);
            if nv > 65535 {
                over = true;
            } else {
                acc = nv;
            }
        }
        j = j + 1;
    }
    let ghost d = v@.subrange(start as int, hi as int);
    assert forall|i: int| 0 <= i < d.len() implies is_digit(#[trigger] d[i]) by {
        assert(d[i] == v@[start + i]);
    }
    if over {
        None
    } else {
        Some(acc as u16)
    }
}

/// The port that the field `v[lo..hi]` stands for.
fn port_of_range(v: &Vec<char>, lo: usize, hi: usize) -> (r: Option<u16>)
    requires
        lo <= hi <= v.len(),
    ensures
        r == port_of_field(v@.subrange(lo as int, hi as int)),
{
    let (a, b) = trim_bounds(v, lo, hi);
    parse_u16_range(v, a, b)
}

/// The ports named by a comma-separated list, in the order they appear.
pub fn parse_port_list(s: &str) -> (ports: Vec<u16>)
    ensures
        ports@ == port_list(s@),
{
    let v = chars_of(s);
    let (starts, ends) = field_bounds(&v, ',', false);
    let ghost fs = split_fields(v@, ',', false);
    let mut ports: Vec<u16> = Vec::new();
    let mut k: usize = 0;
    while k < starts.len()
        invariant
            v@ == s@,
            fs == split_fields(v@, ',', false),
            starts@.len() == fs.len(),
            bounds_match(v@, starts@, ends@, fs),
            k <= starts.len(),
            ports@ == ports_of_fields(fs.take(k as int)),
        decreases starts.len() - k,
    {
        assert(fs.take(k + 1).drop_last() == fs.take(k as int));
        assert(fs.take(k + 1).last() == fs[k as int]);
        assert(starts@[k as int] <= ends@[k as int]);
        match port_of_range(&v, starts[k], ends[k]) {
            Some(port) => ports.push(port),
            None => {},
        }
        k = k + 1;
    }
    assert(fs.take(fs.len() as int) == fs);
    ports
}

} // verus!
