//! Reading what a probed host answered: the output of `ping`, the greeting
//! of a TCP service, and the banner made from an HTTP answer.

use vstd::prelude::*;
use crate::text::{
    ascii_bytes, ascii_text, chars_of, contains, contains_seq, is_whitespace, is_ws, lines,
    lines_of, push_char, push_str, string_of, strings_view, trim, trimmed,
};

verus! {

broadcast use vstd::string::group_string_axioms;

/// What `String::from_utf8_lossy` reads in `b`.
pub uninterp spec fn utf8_lossy(b: Seq<u8>) -> Seq<char>;

/// `String::from_utf8_lossy`: the text of `b`, each invalid UTF-8 sequence
/// replaced by U+FFFD. Its result is named by [`utf8_lossy`]; beyond that,
/// only what the documentation gives for valid UTF-8 is claimed, and only
/// for ASCII bytes: they are read as they stand, one character each.
#[verifier::external_body]
pub(crate) fn lossy_text(b: &[u8]) -> (r: String)
    ensures
        r@ == utf8_lossy(b@),
        ascii_bytes(b@) ==> r@ == ascii_text(b@),
{
    String::from_utf8_lossy(b).into_owned()
}

/// The status and detail of a host after `ping`: a successful ping is
/// `"alive"` with the last line of its output (or a stock line when there
/// is none); a ping refused for want of the raw-socket capability is an
/// `"error"`; any other failure is a `"timeout"`.
pub open spec fn ping_result(success: bool, stdout: Seq<u8>, stderr: Seq<u8>) -> (Seq<char>, Seq<char>) {
    if success {
        let ls = lines_of(trim(utf8_lossy(stdout)));
        ("alive"@, if ls.len() > 0 {
            ls.last()
        } else {
            "Ping succeeded; host is online"@
        })
    } else if contains_seq(utf8_lossy(stderr), "Operation not permitted"@) {
        ("error"@, "Ping failed: CAP_NET_RAW capability is required"@)
    } else {
        ("timeout"@, "ICMP request timed out without a response"@)
    }
}

/// The status and detail of a host after `ping`, from whether it succeeded
/// and what it wrote.
pub fn ping_outcome(success: bool, stdout: &[u8], stderr: &[u8]) -> (r: (String, String))
    ensures
        (r.0@, r.1@) == ping_result(success, stdout@, stderr@),
{
    if success {
        let text = lossy_text(stdout);
        let t = trimmed(text.as_str());
        let ls = lines(t.as_str());
        let detail = if ls.len() > 0 {
            let last = ls.len() - 1;
            assert(strings_view(ls@)[last as int] == ls@[last as int]@);
            string_of(ls[last].as_str())
        } else {
            string_of("Ping succeeded; host is online")
        };
        (string_of("alive"), detail)
    } else {
        let err = lossy_text(stderr);
        if contains(err.as_str(), "Operation not permitted") {
            (string_of("error"), string_of("Ping failed: CAP_NET_RAW capability is required"))
        } else {
            (string_of("timeout"), string_of("ICMP request timed out without a response"))
        }
    }
}

/// Whether a character is kept in a service banner: visible ASCII or white
/// space.
pub open spec fn banner_char(c: char) -> bool {
    ('!' <= c <= '~') || is_ws(c)
}

/// The characters of `s` that are kept in a banner.
pub open spec fn banner_chars(s: Seq<char>) -> Seq<char>
    decreases s.len(),
{
    if s.len() == 0 {
        s
    } else if banner_char(s.last()) {
        banner_chars(s.drop_last()).push(s.last())
    } else {
        banner_chars(s.drop_last())
    }
}

/// The banner of a TCP service from the bytes it sent first: the text
/// trimmed, without characters other than visible ASCII and white space,
/// and only when something is left.
pub open spec fn tcp_banner_of(b: Seq<u8>) -> Option<Seq<char>> {
    let cleaned = banner_chars(trim(utf8_lossy(b)));
    if cleaned.len() > 0 {
        Some(cleaned)
    } else {
        None
    }
}

/// The kept characters of a text are exactly its visible ASCII and white
/// space characters, in order and all of them.
proof fn lemma_banner_chars_filter(s: Seq<char>)
    ensures
        banner_chars(s) == s.filter(|c: char| banner_char(c)),
    decreases s.len(),
{
    reveal_with_fuel(Seq::filter, 1);
    if s.len() > 0 {
        lemma_banner_chars_filter(s.drop_last());
    }
}

/// A TCP banner keeps every visible ASCII and white-space character of the
/// trimmed greeting, in order, and nothing else, whatever its length: a
/// greeting made only of such characters is its own banner, in full.
pub proof fn lemma_banner_is_filtered_greeting(b: Seq<u8>)
    ensures
        ({
            let t = trim(utf8_lossy(b));
            let kept = t.filter(|c: char| banner_char(c));
            &&& tcp_banner_of(b) == if kept.len() > 0 {
                Some(kept)
            } else {
                None::<Seq<char>>
            }
            &&& (t.len() > 0 && forall|i: int| 0 <= i < t.len() ==> banner_char(#[trigger] t[i]))
                ==> tcp_banner_of(b) == Some(t)
        }),
{
    let t = trim(utf8_lossy(b));
    lemma_banner_chars_filter(t);
    if t.len() > 0 && forall|i: int| 0 <= i < t.len() ==> banner_char(#[trigger] t[i]) {
        lemma_banner_chars_all_kept(t);
    }
}

proof fn lemma_banner_chars_all_kept(s: Seq<char>)
    requires
        forall|i: int| 0 <= i < s.len() ==> banner_char(#[trigger] s[i]),
    ensures
        banner_chars(s) == s,
    decreases s.len(),
{
    if s.len() > 0 {
        assert(banner_char(s[s.len() - 1]));
        assert forall|i: int| 0 <= i < s.drop_last().len() implies banner_char(
            #[trigger] s.drop_last()[i],
        ) by {
            assert(s.drop_last()[i] == s[i]);
        }
        lemma_banner_chars_all_kept(s.drop_last());
        assert(s.drop_last().push(s.last()) =~= s);
    }
}

/// The banner of a TCP service from the bytes it sent first: every visible
/// ASCII and white-space character of the trimmed greeting, in order, when
/// there is one.
pub fn tcp_banner(greeting: &[u8]) -> (r: Option<String>)
    ensures
        match tcp_banner_of(greeting@) {
            Some(t) => r matches Some(s) && s@ == t,
            None => r is None,
        },
        ({
            let t = trim(utf8_lossy(greeting@));
            let kept = t.filter(|c: char| banner_char(c));
            &&& r is None <==> kept.len() == 0
            &&& r matches Some(s) ==> s@ == kept
            &&& (t.len() > 0 && forall|i: int| 0 <= i < t.len() ==> banner_char(#[trigger] t[i]))
                ==> (r matches Some(s) && s@ == t)
        }),
{
    proof {
        lemma_banner_is_filtered_greeting(greeting@);
    }
    let text = lossy_text(greeting);
    let t = trimmed(text.as_str());
    let v = chars_of(t.as_str());
    let mut out = String::new();
    let mut i: usize = 0;
    while i < v.len()
        invariant
            i <= v.len(),
            out@ == banner_chars(v@.take(i as int)),
        decreases v.len() - i,
    {
        assert(v@.take(i + 1).drop_last() == v@.take(i as int));
        let c = v[i];
        if ('!' <= c && c <= '~') || is_whitespace(c) {
            push_char(&mut out, c);
        }
        i = i + 1;
    }
    assert(v@.take(v.len() as int) == v@);
    let n = chars_of(out.as_str()).len();
    if n > 0 {
        Some(out)
    } else {
        None
    }
}

/// Whether a port is tried as an HTTP service before its plain greeting is
/// read.
pub open spec fn is_http_port_spec(port: u16) -> bool {
    port == 80 || port == 8080 || port == 3000 || port == 8000
}

/// Whether a port is tried as an HTTP service before its plain greeting is
/// read.
pub fn is_http_port(port: u16) -> (r: bool)
    ensures
        r == is_http_port_spec(port),
{
    port == 80 || port == 8080 || port == 3000 || port == 8000
}

/// The banner of an HTTP service from its `Server` header and page title.
pub open spec fn http_banner_of(server: Option<Seq<char>>, title: Option<Seq<char>>) -> Option<Seq<char>> {
    match (server, title) {
        (Some(s), Some(t)) => Some("HTTP Title: \""@ + t + "\" | Server: "@ + s),
        (None, Some(t)) => Some("HTTP Title: \""@ + t + "\""@),
        (Some(s), None) => Some("HTTP Server: "@ + s),
        (None, None) => None,
    }
}

/// The banner of an HTTP service from its `Server` header and page title.
pub fn http_banner(server: Option<String>, title: Option<String>) -> (r: Option<String>)
    ensures
        match http_banner_of(server.deep_view(), title.deep_view()) {
            Some(t) => r matches Some(s) && s@ == t,
            None => r is None,
        },
{
    match (server, title) {
        (Some(s), Some(t)) => {
            let mut b = string_of("HTTP Title: \"");
            push_str(&mut b, t.as_str());
            push_str(&mut b, "\" | Server: ");
            push_str(&mut b, s.as_str());
            Some(b)
        },
        (None, Some(t)) => {
            let mut b = string_of("HTTP Title: \"");
            push_str(&mut b, t.as_str());
            push_str(&mut b, "\"");
            Some(b)
        },
        (Some(s), None) => {
            let mut b = string_of("HTTP Server: ");
            push_str(&mut b, s.as_str());
            Some(b)
        },
        (None, None) => None,
    }
}

} // verus!
