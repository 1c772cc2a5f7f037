//! The JSON text under which the port details of a host are stored.
//!
//! The layout is the compact one: `[{"port":22,"status":"open","banner":null}]`,
//! with strings escaped as JSON requires (quote, backslash and the control
//! characters below U+0020; the common ones by their short escapes).

use vstd::prelude::*;
use crate::text::{chars_of, decimal, has_prefix, push_char, push_decimal, push_str};
use crate::plan::digits_value;
use crate::report::{PortScanDetail, PortScanDetailView, details_view};

verus! {

broadcast use vstd::string::group_string_axioms;

/// The lowercase hexadecimal digit of `d < 16`.
pub open spec fn hex_digit(d: nat) -> char {
    if d < 10 {
        ((d + 48) as u32) as char
    } else {
        ((d + 87) as u32) as char
    }
}

/// How one character is written inside a JSON string.
pub open spec fn json_escape(c: char) -> Seq<char> {
    let n = c as u32;
    if c == '"' {
        seq!['\\', '"']
    } else if c == '\\' {
        seq!['\\', '\\']
    } else if n == 0x08 {
        seq!['\\', 'b']
    } else if n == 0x09 {
        seq!['\\', 't']
    } else if n == 0x0a {
        seq!['\\', 'n']
    } else if n == 0x0c {
        seq!['\\', 'f']
    } else if n == 0x0d {
        seq!['\\', 'r']
    } else if n < 0x20 {
        seq!['\\', 'u', '0', '0', hex_digit((n / 16) as nat), hex_digit((n % 16) as nat)]
    } else {
        seq![c]
    }
}

/// The escaped body of a JSON string.
pub open spec fn json_escape_all(s: Seq<char>) -> Seq<char>
    decreases s.len(),
{
    if s.len() == 0 {
        Seq::<char>::empty()
    } else {
        json_escape_all(s.drop_last()) + json_escape(s.last())
    }
}

/// A JSON string literal holding `s`.
pub open spec fn json_string(s: Seq<char>) -> Seq<char> {
    seq!['"'] + json_escape_all(s) + seq!['"']
}

/// The JSON object of one port detail.
pub open spec fn detail_json(d: PortScanDetailView) -> Seq<char> {
    "{\"port\":"@ + decimal(d.port as nat) + ",\"status\":"@ + json_string(d.status)
        + ",\"banner\":"@ + match d.banner {
        Some(b) => json_string(b),
        None => "null"@,
    } + "}"@
}

/// The JSON objects of `ds`, separated by commas.
pub open spec fn details_json_items(ds: Seq<PortScanDetailView>) -> Seq<char>
    decreases ds.len(),
{
    if ds.len() == 0 {
        Seq::<char>::empty()
    } else if ds.len() == 1 {
        detail_json(ds[0])
    } else {
        details_json_items(ds.drop_last()) + ","@ + detail_json(ds.last())
    }
}

/// The JSON array of `ds`.
pub open spec fn details_json(ds: Seq<PortScanDetailView>) -> Seq<char> {
    "["@ + details_json_items(ds) + "]"@
}

/// No character of `t` is a control character below U+0020.
pub open spec fn no_control(t: Seq<char>) -> bool {
    forall|k: int| 0 <= k < t.len() ==> (#[trigger] t[k] as u32) >= 0x20
}

/// The value of a JSON hexadecimal digit.
pub open spec fn json_hex_value(c: char) -> nat {
    if '0' <= c <= '9' {
        ((c as u32) - 48) as nat
    } else if 'a' <= c <= 'f' {
        ((c as u32) - 87) as nat
    } else {
        ((c as u32) - 55) as nat
    }
}

/// Whether `c` is a JSON hexadecimal digit.
pub open spec fn is_json_hex(c: char) -> bool {
    ('0' <= c <= '9') || ('a' <= c <= 'f') || ('A' <= c <= 'F')
}

/// The character a one-letter JSON escape (after the backslash) stands for.
pub open spec fn short_escape(e: char) -> Option<char> {
    if e == '"' {
        Some('"')
    } else if e == '\\' {
        Some('\\')
    } else if e == '/' {
        Some('/')
    } else if e == 'b' {
        Some('\u{8}')
    } else if e == 't' {
        Some('\t')
    } else if e == 'n' {
        Some('\n')
    } else if e == 'f' {
        Some('\u{c}')
    } else if e == 'r' {
        Some('\r')
    } else {
        None
    }
}

/// `c` followed by the decoded rest, when the rest decodes.
pub open spec fn prepend(c: char, rest: Option<Seq<char>>) -> Option<Seq<char>> {
    match rest {
        Some(t) => Some(seq![c] + t),
        None => None,
    }
}

/// What a JSON reader makes of the characters between the quotes of a
/// string: an unescaped quote or control character is an error, a
/// backslash starts a one-letter escape or a `\uXXXX` escape of a character
/// outside the surrogate range, and any other character stands for itself.
pub open spec fn json_unescape(s: Seq<char>) -> Option<Seq<char>>
    decreases s.len(),
{
    if s.len() == 0 {
        Some(Seq::<char>::empty())
    } else if s[0] == '\\' {
        if s.len() < 2 {
            None
        } else if s[1] == 'u' {
            if s.len() >= 6 && is_json_hex(s[2]) && is_json_hex(s[3]) && is_json_hex(s[4])
                && is_json_hex(s[5]) {
                let v = ((json_hex_value(s[2]) * 16 + json_hex_value(s[3])) * 16 + json_hex_value(
                    s[4],
                )) * 16 + json_hex_value(s[5]);
                if v < 0xd800 || v > 0xdfff {
                    prepend((v as u32) as char, json_unescape(s.subrange(6, s.len() as int)))
                } else {
                    None
                }
            } else {
                None
            }
        } else {
            match short_escape(s[1]) {
                Some(c) => prepend(c, json_unescape(s.subrange(2, s.len() as int))),
                None => None,
            }
        }
    } else if s[0] == '"' || (s[0] as u32) < 0x20 {
        None
    } else {
        prepend(s[0], json_unescape(s.subrange(1, s.len() as int)))
    }
}

proof fn lemma_hex_digit(d: nat)
    requires
        d < 16,
    ensures
        is_json_hex(hex_digit(d)),
        json_hex_value(hex_digit(d)) == d,
        (hex_digit(d) as u32) >= 0x20,
{
}

proof fn lemma_no_control_concat(a: Seq<char>, b: Seq<char>)
    requires
        no_control(a),
        no_control(b),
    ensures
        no_control(a + b),
{
    assert forall|k: int| 0 <= k < (a + b).len() implies (#[trigger] (a + b)[k] as u32) >= 0x20 by {
        if k < a.len() {
            assert((a + b)[k] == a[k]);
        } else {
            assert((a + b)[k] == b[k - a.len()]);
        }
    }
}

proof fn lemma_escape_no_control(c: char)
    ensures
        no_control(json_escape(c)),
{
    let n = c as u32;
    if n < 0x20 && c != '"' && c != '\\' && n != 0x08 && n != 0x09 && n != 0x0a && n != 0x0c
        && n != 0x0d {
        lemma_hex_digit((n / 16) as nat);
        lemma_hex_digit((n % 16) as nat);
    }
}

proof fn lemma_escape_all_no_control(s: Seq<char>)
    ensures
        no_control(json_escape_all(s)),
    decreases s.len(),
{
    if s.len() > 0 {
        lemma_escape_all_no_control(s.drop_last());
        lemma_escape_no_control(s.last());
        lemma_no_control_concat(json_escape_all(s.drop_last()), json_escape(s.last()));
    }
}

proof fn lemma_decimal_no_control(n: nat)
    ensures
        no_control(decimal(n)),
    decreases n,
{
    if n >= 10 {
        lemma_decimal_no_control(n / 10);
        lemma_no_control_concat(decimal(n / 10), seq![crate::text::digit_char(n % 10)]);
        assert(decimal(n) == decimal(n / 10) + seq![crate::text::digit_char(n % 10)]);
    }
}

proof fn lemma_literal_no_control(t: Seq<char>)
    requires
        forall|k: int| 0 <= k < t.len() ==> ' ' <= #[trigger] t[k] <= '~',
    ensures
        no_control(t),
{
}

/// Escaping `c` and then reading it back gives `c`, whatever follows.
proof fn lemma_unescape_escape(c: char, rest: Seq<char>)
    ensures
        json_unescape(json_escape(c) + rest) == prepend(c, json_unescape(rest)),
{
    let e = json_escape(c);
    let t = e + rest;
    let n = c as u32;
    assert(t.subrange(e.len() as int, t.len() as int) =~= rest);
    if c == '"' || c == '\\' || n == 0x08 || n == 0x09 || n == 0x0a || n == 0x0c || n == 0x0d {
        assert(t[0] == '\\');
        assert(t[1] == e[1]);
    } else if n < 0x20 {
        lemma_hex_digit((n / 16) as nat);
        lemma_hex_digit((n % 16) as nat);
        assert(t[0] == '\\');
        assert(t[1] == 'u');
        assert(t[2] == '0' && t[3] == '0');
        assert(t[4] == hex_digit((n / 16) as nat) && t[5] == hex_digit((n % 16) as nat));
        assert(((n as u32) as char) == c);
    } else {
        assert(t[0] == c);
    }
}

/// The escaped text of `s` starts with the escape of its first character.
proof fn lemma_escape_all_front(s: Seq<char>)
    requires
        s.len() > 0,
    ensures
        json_escape_all(s) == json_escape(s[0]) + json_escape_all(s.drop_first()),
    decreases s.len(),
{
    if s.len() == 1 {
        assert(s.drop_last() =~= Seq::<char>::empty());
        assert(s.drop_first() =~= Seq::<char>::empty());
        assert(json_escape_all(s.drop_last()) =~= Seq::<char>::empty());
        assert(json_escape_all(s.drop_first()) =~= Seq::<char>::empty());
        assert(s.last() == s[0]);
        assert(json_escape_all(s) =~= json_escape(s[0]) + json_escape_all(s.drop_first()));
    } else {
        lemma_escape_all_front(s.drop_last());
        assert(s.drop_last().drop_first() =~= s.drop_first().drop_last());
        assert(s.drop_first().last() == s.last());
        assert(s.drop_last()[0] == s[0]);
        assert(json_escape_all(s) =~= json_escape(s[0]) + json_escape_all(s.drop_first()));
    }
}

/// Reading back the JSON string that a text is written as gives the text:
/// every character survives, and the quotes around it cannot be taken for
/// an end inside it.
pub proof fn lemma_json_string_reads_back(s: Seq<char>)
    ensures
        json_unescape(json_escape_all(s)) == Some(s),
        no_control(json_string(s)),
    decreases s.len(),
{
    if s.len() == 0 {
        assert(json_escape_all(s) =~= Seq::<char>::empty());
    } else {
        lemma_escape_all_front(s);
        lemma_json_string_reads_back(s.drop_first());
        lemma_unescape_escape(s[0], json_escape_all(s.drop_first()));
        assert(seq![s[0]] + s.drop_first() =~= s);
    }
    lemma_escape_all_no_control(s);
    lemma_no_control_concat(seq!['"'], json_escape_all(s));
    lemma_no_control_concat(seq!['"'] + json_escape_all(s), seq!['"']);
}

/// The index of the quote that closes a JSON string whose body starts at
/// or before `i`: escapes are stepped over, so an escaped quote does not
/// close it.
pub open spec fn closing_quote(s: Seq<char>, i: int) -> Option<int>
    decreases s.len() - i,
{
    if i < 0 || i >= s.len() {
        None
    } else if s[i] == '"' {
        Some(i)
    } else if s[i] == '\\' {
        if i + 2 > s.len() {
            None
        } else {
            closing_quote(s, i + 2)
        }
    } else {
        closing_quote(s, i + 1)
    }
}

/// A JSON string read from the front of `s`: its decoded text and what
/// follows it.
pub open spec fn read_json_string(s: Seq<char>) -> Option<(Seq<char>, Seq<char>)> {
    if s.len() > 0 && s[0] == '"' {
        match closing_quote(s, 1) {
            Some(e) => match json_unescape(s.subrange(1, e)) {
                Some(v) => Some((v, s.subrange(e + 1, s.len() as int))),
                None => None,
            },
            None => None,
        }
    } else {
        None
    }
}

proof fn lemma_closing_quote_unit(t: Seq<char>, i: int, c: char)
    requires
        0 <= i,
        i + json_escape(c).len() < t.len(),
        t.subrange(i, i + json_escape(c).len()) == json_escape(c),
    ensures
        closing_quote(t, i) == closing_quote(t, i + json_escape(c).len()),
{
    let e = json_escape(c);
    let n = c as u32;
    assert forall|k: int| 0 <= k < e.len() implies t[i + k] == e[k] by {
        assert(t.subrange(i, i + e.len())[k] == t[i + k]);
    }
    if c == '"' || c == '\\' || n == 0x08 || n == 0x09 || n == 0x0a || n == 0x0c || n == 0x0d {
        assert(t[i] == '\\');
    } else if n < 0x20 {
        lemma_hex_digit((n / 16) as nat);
        lemma_hex_digit((n % 16) as nat);
        assert(t[i] == '\\');
        assert(t[i + 2] == '0' && t[i + 3] == '0');
        assert(t[i + 4] == hex_digit((n / 16) as nat));
        assert(t[i + 5] == hex_digit((n % 16) as nat));
        assert(t[i + 4] != '"' && t[i + 4] != '\\');
        assert(t[i + 5] != '"' && t[i + 5] != '\\');
        assert(closing_quote(t, i + 5) == closing_quote(t, i + 6));
        assert(closing_quote(t, i + 4) == closing_quote(t, i + 5));
        assert(closing_quote(t, i + 3) == closing_quote(t, i + 4));
        assert(closing_quote(t, i + 2) == closing_quote(t, i + 3));
    } else {
        assert(e =~= seq![c]);
        assert(t[i] == e[0]);
        assert(t[i] == c);
    }
}

proof fn lemma_closing_quote_all(t: Seq<char>, i: int, x: Seq<char>)
    requires
        0 <= i,
        i + json_escape_all(x).len() < t.len(),
        t.subrange(i, i + json_escape_all(x).len()) == json_escape_all(x),
    ensures
        closing_quote(t, i) == closing_quote(t, i + json_escape_all(x).len()),
    decreases x.len(),
{
    if x.len() == 0 {
        assert(json_escape_all(x).len() == 0);
    } else {
        lemma_escape_all_front(x);
        let e0 = json_escape(x[0]);
        let er = json_escape_all(x.drop_first());
        assert(t.subrange(i, i + e0.len()) =~= e0) by {
            assert forall|k: int| 0 <= k < e0.len() implies t.subrange(i, i + e0.len())[k]
                == e0[k] by {
                assert(t.subrange(i, i + json_escape_all(x).len())[k] == json_escape_all(x)[k]);
            }
        }
        assert(t.subrange(i + e0.len(), i + e0.len() + er.len()) =~= er) by {
            assert forall|k: int| 0 <= k < er.len() implies t.subrange(
                i + e0.len(),
                i + e0.len() + er.len(),
            )[k] == er[k] by {
                assert(t.subrange(i, i + json_escape_all(x).len())[e0.len() + k]
                    == json_escape_all(x)[e0.len() + k]);
            }
        }
        lemma_closing_quote_unit(t, i, x[0]);
        lemma_closing_quote_all(t, i + e0.len(), x.drop_first());
    }
}

/// Reading a JSON string from the front of the text written for `x`,
/// followed by anything, gives `x` back and leaves what follows.
pub proof fn lemma_read_json_string(x: Seq<char>, rest: Seq<char>)
    ensures
        read_json_string(json_string(x) + rest) == Some((x, rest)),
{
    let body = json_escape_all(x);
    let m: int = body.len() as int;
    let t = json_string(x) + rest;
    assert(t =~= seq!['"'] + body + seq!['"'] + rest);
    assert(t.subrange(1, 1 + m) =~= body);
    lemma_closing_quote_all(t, 1, x);
    assert(t[1 + m] == '"');
    lemma_json_string_reads_back(x);
    assert(t.subrange(1 + m + 1, t.len() as int) =~= rest);
}

/// Whether `c` is a decimal digit.
pub open spec fn is_digit(c: char) -> bool {
    '0' <= c <= '9'
}

/// How many decimal digits `s` starts with.
pub open spec fn digit_run(s: Seq<char>) -> nat
    decreases s.len(),
{
    if s.len() > 0 && is_digit(s[0]) {
        1 + digit_run(s.drop_first())
    } else {
        0
    }
}

/// A JSON number of decimal digits read from the front of `s`: its value
/// and what follows it.
pub open spec fn read_json_number(s: Seq<char>) -> Option<(nat, Seq<char>)> {
    let k = digit_run(s);
    if k == 0 {
        None
    } else {
        Some((digits_value(s.take(k as int)), s.skip(k as int)))
    }
}

/// What follows the fixed text `p` at the front of `s`.
pub open spec fn after(s: Seq<char>, p: Seq<char>) -> Option<Seq<char>> {
    if has_prefix(s, p) {
        Some(s.skip(p.len() as int))
    } else {
        None
    }
}

/// A banner read from the front of `s`: `null` or a string.
pub open spec fn read_banner(s: Seq<char>) -> Option<(Option<Seq<char>>, Seq<char>)> {
    match after(s, "null"@) {
        Some(r) => Some((None, r)),
        None => match read_json_string(s) {
            Some((b, r)) => Some((Some(b), r)),
            None => None,
        },
    }
}

/// One port detail read from the front of `s` as the results table stores
/// it, and what follows it.
#[verifier::opaque]
pub open spec fn read_detail(s: Seq<char>) -> Option<(PortScanDetailView, Seq<char>)> {
    match after(s, "{\"port\":"@) {
        None => None,
        Some(s1) => match read_json_number(s1) {
            None => None,
            Some((port, s2)) => if port >= 0x10000 {
                None
            } else {
                match after(s2, ",\"status\":"@) {
                    None => None,
                    Some(s3) => match read_json_string(s3) {
                        None => None,
                        Some((st, s4)) => match after(s4, ",\"banner\":"@) {
                            None => None,
                            Some(s5) => match read_banner(s5) {
                                None => None,
                                Some((b, s6)) => match after(s6, "}"@) {
                                    None => None,
                                    Some(s7) => Some(
                                        (
                                            PortScanDetailView {
                                                port: port as u16,
                                                status: st,
                                                banner: b,
                                            },
                                            s7,
                                        ),
                                    ),
                                },
                            },
                        },
                    },
                }
            },
        },
    }
}

/// Port details separated by commas up to the closing bracket, read from
/// the front of `s`.
pub open spec fn read_items(s: Seq<char>) -> Option<Seq<PortScanDetailView>>
    decreases s.len(),
{
    match read_detail(s) {
        Some((d, r)) => if r.len() > 0 && r[0] == ',' && r.len() <= s.len() {
            match read_items(r.skip(1)) {
                Some(ds) => Some(seq![d] + ds),
                None => None,
            }
        } else if r == "]"@ {
            Some(seq![d])
        } else {
            None
        },
        None => None,
    }
}

/// The port details that a stored JSON text holds.
pub open spec fn read_details(s: Seq<char>) -> Option<Seq<PortScanDetailView>> {
    if s == "[]"@ {
        Some(Seq::<PortScanDetailView>::empty())
    } else if s.len() > 0 && s[0] == '[' {
        read_items(s.skip(1))
    } else {
        None
    }
}

proof fn lemma_after(p: Seq<char>, r: Seq<char>)
    ensures
        after(p + r, p) == Some(r),
{
    assert((p + r).subrange(0, p.len() as int) =~= p);
    assert((p + r).skip(p.len() as int) =~= r);
}

proof fn lemma_decimal_reads_back(n: nat)
    ensures
        decimal(n).len() >= 1,
        forall|k: int| 0 <= k < decimal(n).len() ==> is_digit(#[trigger] decimal(n)[k]),
        digits_value(decimal(n)) == n,
    decreases n,
{
    if n < 10 {
        let d = decimal(n);
        assert(d.drop_last() =~= Seq::<char>::empty());
        assert((crate::text::digit_char(n) as u32) == n + 48);
        assert(digits_value(d) == digits_value(d.drop_last()) * 10 + ((d.last() as u32) - ('0' as u32)) as nat);
    } else {
        lemma_decimal_reads_back(n / 10);
        let d = decimal(n);
        assert(d.drop_last() == decimal(n / 10));
        assert(d.last() == crate::text::digit_char(n % 10));
        assert((crate::text::digit_char(n % 10) as u32) == n % 10 + 48);
        assert(digits_value(d) == digits_value(d.drop_last()) * 10 + ((d.last() as u32) - ('0' as u32)) as nat);
        assert((n / 10) * 10 + n % 10 == n);
        assert forall|k: int| 0 <= k < d.len() implies is_digit(#[trigger] d[k]) by {
            if k < d.len() - 1 {
                assert(d[k] == decimal(n / 10)[k]);
            }
        }
    }
}

proof fn lemma_digit_run(a: Seq<char>, r: Seq<char>)
    requires
        forall|k: int| 0 <= k < a.len() ==> is_digit(#[trigger] a[k]),
        r.len() > 0,
        !is_digit(r[0]),
    ensures
        digit_run(a + r) == a.len(),
    decreases a.len(),
{
    if a.len() == 0 {
        assert(a + r =~= r);
    } else {
        assert((a + r).drop_first() =~= a.drop_first() + r);
        assert forall|k: int| 0 <= k < a.drop_first().len() implies is_digit(
            #[trigger] a.drop_first()[k],
        ) by {
            assert(a.drop_first()[k] == a[k + 1]);
        }
        lemma_digit_run(a.drop_first(), r);
    }
}

proof fn lemma_read_number(n: nat, r: Seq<char>)
    requires
        r.len() > 0,
        !is_digit(r[0]),
    ensures
        read_json_number(decimal(n) + r) == Some((n, r)),
{
    lemma_decimal_reads_back(n);
    lemma_digit_run(decimal(n), r);
    let t = decimal(n) + r;
    assert(t.take(decimal(n).len() as int) =~= decimal(n));
    assert(t.skip(decimal(n).len() as int) =~= r);
}

/// Reading one port detail from the front of its JSON text, followed by
/// anything, gives the detail back and leaves what follows.
proof fn lemma_read_detail(d: PortScanDetailView, rest: Seq<char>)
    ensures
        read_detail(detail_json(d) + rest) == Some((d, rest)),
{
    reveal(read_detail);
    let l1 = "{\"port\":"@;
    let l2 = ",\"status\":"@;
    let l3 = ",\"banner\":"@;
    let nl = "null"@;
    let cl = "}"@;
    reveal_strlit("{\"port\":");
    reveal_strlit(",\"status\":");
    reveal_strlit(",\"banner\":");
    reveal_strlit("null");
    reveal_strlit("}");
    let dec = decimal(d.port as nat);
    let st = json_string(d.status);
    let b = match d.banner {
        Some(x) => json_string(x),
        None => nl,
    };
    let s7 = rest;
    let s6 = cl + s7;
    let s5 = b + s6;
    let s4 = l3 + s5;
    let s3 = st + s4;
    let s2 = l2 + s3;
    let s1 = dec + s2;
    let t = l1 + s1;
    assert(detail_json(d) + rest =~= t);
    lemma_after(l1, s1);
    lemma_read_number(d.port as nat, s2);
    lemma_after(l2, s3);
    lemma_read_json_string(d.status, s4);
    lemma_after(l3, s5);
    match d.banner {
        Some(x) => {
            lemma_read_json_string(x, s6);
            assert(s5[0] == '"');
            assert(!has_prefix(s5, nl)) by {
                if has_prefix(s5, nl) {
                    assert(s5.subrange(0, 4)[0] == s5[0]);
                }
            }
        },
        None => {
            lemma_after(nl, s6);
        },
    }
    lemma_after(cl, s7);
}

proof fn lemma_items_front(ds: Seq<PortScanDetailView>)
    requires
        ds.len() >= 1,
    ensures
        ds.len() == 1 ==> details_json_items(ds) == detail_json(ds[0]),
        ds.len() >= 2 ==> details_json_items(ds) == detail_json(ds[0]) + ","@
            + details_json_items(ds.drop_first()),
    decreases ds.len(),
{
    if ds.len() == 2 {
        assert(ds.drop_last().len() == 1);
        assert(ds.drop_first().len() == 1);
        assert(ds.drop_last()[0] == ds[0]);
        assert(ds.drop_first()[0] == ds.last());
        assert(details_json_items(ds.drop_last()) == detail_json(ds[0]));
        assert(details_json_items(ds.drop_first()) == detail_json(ds.last()));
        assert(details_json_items(ds) == details_json_items(ds.drop_last()) + ","@ + detail_json(
            ds.last(),
        ));
    } else if ds.len() > 2 {
        lemma_items_front(ds.drop_last());
        assert(ds.drop_last().drop_first() =~= ds.drop_first().drop_last());
        assert(ds.drop_first().last() == ds.last());
        assert(ds.drop_last()[0] == ds[0]);
        assert(details_json_items(ds) =~= detail_json(ds[0]) + ","@ + details_json_items(
            ds.drop_first(),
        ));
    }
}

proof fn lemma_read_items(ds: Seq<PortScanDetailView>)
    requires
        ds.len() >= 1,
    ensures
        read_items(details_json_items(ds) + "]"@) == Some(ds),
    decreases ds.len(),
{
    reveal_strlit("]");
    reveal_strlit(",");
    lemma_items_front(ds);
    if ds.len() == 1 {
        lemma_read_detail(ds[0], "]"@);
        assert(seq![ds[0]] =~= ds);
    } else {
        let r = ","@ + (details_json_items(ds.drop_first()) + "]"@);
        assert(details_json_items(ds) + "]"@ =~= detail_json(ds[0]) + r);
        lemma_read_detail(ds[0], r);
        assert(r.skip(1) =~= details_json_items(ds.drop_first()) + "]"@);
        assert(r != "]"@);
        lemma_read_items(ds.drop_first());
        assert(seq![ds[0]] + ds.drop_first() =~= ds);
    }
}

/// Reading the stored JSON text of any port details gives the same details
/// back, in order: each port number, status and banner survives.
pub proof fn lemma_details_json_reads_back(ds: Seq<PortScanDetailView>)
    ensures
        read_details(details_json(ds)) == Some(ds),
{
    reveal_strlit("[");
    reveal_strlit("]");
    reveal_strlit("[]");
    if ds.len() == 0 {
        assert(details_json(ds) =~= "[]"@);
        assert(Seq::<PortScanDetailView>::empty() =~= ds);
    } else {
        lemma_read_items(ds);
        lemma_items_front(ds);
        lemma_read_detail(ds[0], Seq::<char>::empty());
        assert(details_json(ds).skip(1) =~= details_json_items(ds) + "]"@);
        assert(details_json(ds).len() > 2) by {
            assert(detail_json(ds[0]).len() > 1);
        }
        assert(details_json(ds) != "[]"@);
    }
}

proof fn lemma_detail_no_control(d: PortScanDetailView)
    ensures
        no_control(detail_json(d)),
{
    reveal_strlit("{\"port\":");
    reveal_strlit(",\"status\":");
    reveal_strlit(",\"banner\":");
    reveal_strlit("null");
    reveal_strlit("}");
    lemma_literal_no_control("{\"port\":"@);
    lemma_literal_no_control(",\"status\":"@);
    lemma_literal_no_control(",\"banner\":"@);
    lemma_literal_no_control("null"@);
    lemma_literal_no_control("}"@);
    lemma_decimal_no_control(d.port as nat);
    lemma_json_string_reads_back(d.status);
    let b = match d.banner {
        Some(t) => json_string(t),
        None => "null"@,
    };
    match d.banner {
        Some(t) => lemma_json_string_reads_back(t),
        None => {},
    }
    let p1 = "{\"port\":"@ + decimal(d.port as nat);
    lemma_no_control_concat("{\"port\":"@, decimal(d.port as nat));
    lemma_no_control_concat(p1, ",\"status\":"@);
    lemma_no_control_concat(p1 + ",\"status\":"@, json_string(d.status));
    lemma_no_control_concat(p1 + ",\"status\":"@ + json_string(d.status), ",\"banner\":"@);
    lemma_no_control_concat(p1 + ",\"status\":"@ + json_string(d.status) + ",\"banner\":"@, b);
    lemma_no_control_concat(
        p1 + ",\"status\":"@ + json_string(d.status) + ",\"banner\":"@ + b,
        "}"@,
    );
}

proof fn lemma_items_no_control(ds: Seq<PortScanDetailView>)
    ensures
        no_control(details_json_items(ds)),
    decreases ds.len(),
{
    reveal_strlit(",");
    if ds.len() == 1 {
        lemma_detail_no_control(ds[0]);
    } else if ds.len() > 1 {
        lemma_items_no_control(ds.drop_last());
        lemma_detail_no_control(ds.last());
        lemma_literal_no_control(","@);
        lemma_no_control_concat(details_json_items(ds.drop_last()), ","@);
        lemma_no_control_concat(details_json_items(ds.drop_last()) + ","@, detail_json(ds.last()));
    }
}

/// The stored JSON text of any port details holds no control character:
/// every one inside a status or banner is written as an escape, so a JSON
/// reader accepts the text.
pub proof fn lemma_details_json_no_control(ds: Seq<PortScanDetailView>)
    ensures
        no_control(details_json(ds)),
{
    reveal_strlit("[");
    reveal_strlit("]");
    lemma_literal_no_control("["@);
    lemma_literal_no_control("]"@);
    lemma_items_no_control(ds);
    lemma_no_control_concat("["@, details_json_items(ds));
    lemma_no_control_concat("["@ + details_json_items(ds), "]"@);
}

fn hex_char(d: u32) -> (c: char)
    requires
        d < 16,
    ensures
        c == hex_digit(d as nat),
{
    if d < 10 {
        let b: u8 = (d as u8) + 48;
        assert((b as u32) == d + 48);
        b as char
    } else {
        let b: u8 = (d as u8) + 87;
        assert((b as u32) == d + 87);
        b as char
    }
}

fn push_escaped(s: &mut String, c: char)
    ensures
        final(s)@ == old(s)@ + json_escape(c),
{
    let n = c as u32;
    if c == '"' {
        push_char(s, '\\');
        push_char(s, '"');
    } else if c == '\\' {
        push_char(s, '\\');
        push_char(s, '\\');
    } else if n == 0x08 {
        push_char(s, '\\');
        push_char(s, 'b');
    } else if n == 0x09 {
        push_char(s, '\\');
        push_char(s, 't');
    } else if n == 0x0a {
        push_char(s, '\\');
        push_char(s, 'n');
    } else if n == 0x0c {
        push_char(s, '\\');
        push_char(s, 'f');
    } else if n == 0x0d {
        push_char(s, '\\');
        push_char(s, 'r');
    } else if n < 0x20 {
        push_char(s, '\\');
        push_char(s, 'u');
        push_char(s, '0');
        push_char(s, '0');
        let hi = hex_char(n / 16);
        push_char(s, hi);
        let lo = hex_char(n % 16);
        push_char(s, lo);
    } else {
        push_char(s, c);
    }
    assert(final(s)@ =~= old(s)@ + json_escape(c));
}

/// Appends `t` as a JSON string literal.
pub fn push_json_string(s: &mut String, t: &str)
    ensures
        final(s)@ == old(s)@ + json_string(t@),
{
    let v = chars_of(t);
    push_char(s, '"');
    let ghost start = s@;
    let mut i: usize = 0;
    while i < v.len()
        invariant
            i <= v.len(),
            s@ == start + json_escape_all(v@.take(i as int)),
        decreases v.len() - i,
    {
        assert(v@.take(i + 1).drop_last() == v@.take(i as int));
        push_escaped(s, v[i]);
        i = i + 1;
    }
    assert(v@.take(v.len() as int) == v@);
    push_char(s, '"');
    assert(s@ =~= old(s)@ + json_string(t@));
}

fn push_detail_json(s: &mut String, d: &PortScanDetail)
    ensures
        final(s)@ == old(s)@ + detail_json(d@),
{
    push_str(s, "{\"port\":");
    push_decimal(s, d.port as usize);
    push_str(s, ",\"status\":");
    push_json_string(s, d.status.as_str());
    push_str(s, ",\"banner\":");
    match &d.banner {
        Some(b) => push_json_string(s, b.as_str()),
        None => push_str(s, "null"),
    }
    push_str(s, "}");
    assert(final(s)@ =~= old(s)@ + detail_json(d@));
}

/// The JSON text of a list of port details, as the results table stores it:
/// free of control characters, and read back as the same details.
pub fn details_to_json(ports: &Vec<PortScanDetail>) -> (r: String)
    ensures
        r@ == details_json(details_view(ports@)),
        no_control(r@),
        read_details(r@) == Some(details_view(ports@)),
{
    proof {
        lemma_details_json_no_control(details_view(ports@));
        lemma_details_json_reads_back(details_view(ports@));
    }
    let mut s = String::new();
    push_str(&mut s, "[");
    let ghost start = s@;
    let mut i: usize = 0;
    while i < ports.len()
        invariant
            i <= ports.len(),
            s@ == start + details_json_items(details_view(ports@.take(i as int))),
        decreases ports.len() - i,
    {
        let ghost ds = details_view(ports@.take(i + 1));
        assert(ds.drop_last() == details_view(ports@.take(i as int)));
        assert(ds.last() == ports@[i as int]@);
        if i > 0 {
            push_str(&mut s, ",");
        }
        push_detail_json(&mut s, &ports[i]);
        proof {
            if i == 0 {
                assert(ds.len() == 1);
                assert(ds[0] == ports@[0]@);
                assert(details_view(ports@.take(0)) =~= Seq::<PortScanDetailView>::empty());
            }
            assert(s@ =~= start + details_json_items(ds));
        }
        i = i + 1;
    }
    assert(ports@.take(ports.len() as int) == ports@);
    push_str(&mut s, "]");
    assert(s@ =~= details_json(details_view(ports@)));
    s
}

} // verus!
