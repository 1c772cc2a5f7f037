//! The `Server` header and page title of an HTTP answer.
//!
//! Both are found case-insensitively: the header in the lowercase of each
//! line, the title tags in the lowercase of the whole text. They are then
//! cut out of the original text at the same byte offsets, so the cut is
//! only possible where those offsets fall on character boundaries of the
//! original text.

use vstd::prelude::*;
use vstd::string::StringSliceAdditionalSpecFns;
use vstd::utf8::{decode_utf8, encode_utf8, is_ascii_chars, is_char_boundary, valid_utf8};
use crate::plan::{to_lowercase, unicode_lowercase};
use crate::probe::{http_banner, http_banner_of, lossy_text, utf8_lossy};
use crate::text::{
    ascii_bytes, ascii_lower, ascii_text, has_prefix, is_sep, lemma_split_fields_len, lines,
    lines_of, split_fields, starts_with, strip_cr, strings_view, trim, trimmed,
};

verus! {

broadcast use vstd::string::group_string_axioms;

/// The first byte offset at or after `i` where `needle` occurs in `hay`.
pub open spec fn find_from(hay: Seq<u8>, needle: Seq<u8>, i: int) -> Option<int>
    decreases hay.len() + 1 - i,
{
    if i < 0 || i + needle.len() > hay.len() {
        None
    } else if hay.subrange(i, i + needle.len()) == needle {
        Some(i)
    } else {
        find_from(hay, needle, i + 1)
    }
}

/// The first byte offset of `needle` in `hay`, as `str::find` gives it.
pub open spec fn find_bytes(hay: Seq<u8>, needle: Seq<u8>) -> Option<int> {
    find_from(hay, needle, 0)
}

fn find_bytes_exec(hay: &[u8], needle: &[u8]) -> (r: Option<usize>)
    ensures
        match r {
            Some(i) => find_bytes(hay@, needle@) == Some(i as int) && i + needle@.len() <= hay@.len(),
            None => find_bytes(hay@, needle@) is None,
        },
{
    let n = needle.len();
    if n > hay.len() {
        return None;
    }
    let last = hay.len() - n;
    let mut i: usize = 0;
    loop
        invariant
            n == needle@.len(),
            n <= hay@.len(),
            last == hay@.len() - n,
            i <= last,
            find_bytes(hay@, needle@) == find_from(hay@, needle@, i as int),
        decreases last - i,
    {
        let mut j: usize = 0;
        let mut same = true;
        while j < n
            invariant
                n == needle@.len(),
                i + n <= hay@.len(),
                i + n <= hay.len(),
                j <= n,
                same == (forall|k: int| 0 <= k < j ==> hay@[i + k] == needle@[k]),
            decreases n - j,
        {
            if hay[i + j] != needle[j] {
                same = false;
            }
            j = j + 1;
        }
        if same {
            assert(hay@.subrange(i as int, i + n) =~= needle@);
            return Some(i);
        } else {
            let ghost k = choose|k: int| 0 <= k < n && hay@[i + k] != needle@[k];
            assert(hay@.subrange(i as int, i + n)[k] != needle@[k]);
        }
        if i == last {
            assert(find_from(hay@, needle@, i + 1) is None);
            return None;
        }
        i = i + 1;
    }
}

/// Whether a line is the `Server` header: its lowercase begins with
/// `server:`.
pub open spec fn is_server_line(l: Seq<char>) -> bool {
    has_prefix(unicode_lowercase(l), "server:"@)
}

/// The first `Server` header line among `ls`.
pub open spec fn first_server_line(ls: Seq<Seq<char>>) -> Option<Seq<char>>
    decreases ls.len(),
{
    if ls.len() == 0 {
        None
    } else if is_server_line(ls[0]) {
        Some(ls[0])
    } else {
        first_server_line(ls.drop_first())
    }
}

/// Whether the value of a header line can be cut after its first seven
/// bytes.
pub open spec fn server_cut_ok(l: Seq<char>) -> bool {
    is_char_boundary(encode_utf8(l), 7)
}

/// The header value: the line after its first seven bytes, trimmed.
pub open spec fn server_value(l: Seq<char>) -> Seq<char> {
    trim(decode_utf8(encode_utf8(l).subrange(7, encode_utf8(l).len() as int)))
}

/// The byte range of the title: between the first `<title>` and the first
/// `</title>` of the lowercase text, when the closing tag comes later.
pub open spec fn title_range(text: Seq<char>) -> Option<(int, int)> {
    let lower = encode_utf8(unicode_lowercase(text));
    match (find_bytes(lower, encode_utf8("<title>"@)), find_bytes(lower, encode_utf8("</title>"@))) {
        (Some(s), Some(e)) => if e > s + 7 {
            Some((s + 7, e))
        } else {
            None
        },
        _ => None,
    }
}

/// Whether the original text can be cut at byte offsets `a..b`.
pub open spec fn cut_ok(text: Seq<char>, a: int, b: int) -> bool {
    a <= b && is_char_boundary(encode_utf8(text), a) && is_char_boundary(encode_utf8(text), b)
}

/// Whether both the header value and the title can be cut out.
pub open spec fn http_fields_ok(text: Seq<char>) -> bool {
    &&& first_server_line(lines_of(text)) matches Some(l) ==> server_cut_ok(l)
    &&& title_range(text) matches Some((a, b)) ==> cut_ok(text, a, b)
}

/// The `Server` header value of an HTTP answer, if it has one.
pub open spec fn http_server_of(text: Seq<char>) -> Option<Seq<char>> {
    match first_server_line(lines_of(text)) {
        Some(l) => Some(server_value(l)),
        None => None,
    }
}

/// The page title of an HTTP answer, if it has one.
pub open spec fn http_title_of(text: Seq<char>) -> Option<Seq<char>> {
    match title_range(text) {
        Some((a, b)) => Some(
            trim(decode_utf8(encode_utf8(text).subrange(a, b))),
        ),
        None => None,
    }
}

/// The fields of ASCII text are ASCII.
proof fn lemma_split_fields_ascii(s: Seq<char>, sep: char, ws: bool)
    requires
        is_ascii_chars(s),
    ensures
        forall|i: int|
            0 <= i < split_fields(s, sep, ws).len() ==> is_ascii_chars(
                #[trigger] split_fields(s, sep, ws)[i],
            ),
    decreases s.len(),
{
    if s.len() > 0 {
        assert(is_ascii_chars(s.drop_last()));
        lemma_split_fields_ascii(s.drop_last(), sep, ws);
        lemma_split_fields_len(s.drop_last(), sep, ws);
        let f = split_fields(s.drop_last(), sep, ws);
        if !is_sep(s.last(), sep, ws) {
            assert(is_ascii_chars(f.last()));
            assert(is_ascii_chars(f.last().push(s.last())));
        }
    }
}

/// The lines of ASCII text are ASCII.
proof fn lemma_lines_ascii(s: Seq<char>)
    requires
        is_ascii_chars(s),
    ensures
        forall|i: int| 0 <= i < lines_of(s).len() ==> is_ascii_chars(#[trigger] lines_of(s)[i]),
{
    let fs = split_fields(s, '\n', false);
    lemma_split_fields_ascii(s, '\n', false);
    lemma_split_fields_len(s, '\n', false);
    assert forall|i: int| 0 <= i < lines_of(s).len() implies is_ascii_chars(
        #[trigger] lines_of(s)[i],
    ) by {
        if i < fs.len() - 1 {
            assert(is_ascii_chars(fs[i]));
            assert(lines_of(s)[i] == strip_cr(fs.drop_last()[i]));
        } else {
            assert(is_ascii_chars(fs[fs.len() - 1]));
        }
    }
}

/// The characters of ASCII bytes are ASCII.
proof fn lemma_ascii_text_ascii(b: Seq<u8>)
    requires
        ascii_bytes(b),
    ensures
        is_ascii_chars(ascii_text(b)),
{
    assert forall|i: int| 0 <= i < ascii_text(b).len() implies '\0' <= #[trigger] ascii_text(b)[i]
        <= '\u{7f}' by {
        assert(b[i] < 128);
    }
}

/// The ASCII lowercase of ASCII text is ASCII.
proof fn lemma_ascii_lower_ascii(s: Seq<char>)
    requires
        is_ascii_chars(s),
    ensures
        is_ascii_chars(s.map_values(|c: char| ascii_lower(c))),
{
    let t = s.map_values(|c: char| ascii_lower(c));
    assert forall|i: int| 0 <= i < t.len() implies '\0' <= #[trigger] t[i] <= '\u{7f}' by {
        assert(s[i] <= '\u{7f}');
    }
}

/// Every offset of the UTF-8 encoding of ASCII text is a character
/// boundary, the encoding being one byte for each character.
proof fn lemma_ascii_boundary(chars: Seq<char>, k: int)
    requires
        is_ascii_chars(chars),
        0 <= k <= chars.len(),
    ensures
        encode_utf8(chars).len() == chars.len(),
        is_char_boundary(encode_utf8(chars), k),
{
    vstd::utf8::is_ascii_chars_encode_utf8(chars);
    vstd::utf8::encode_utf8_valid_utf8(chars);
    let b = encode_utf8(chars);
    if k == chars.len() {
        vstd::utf8::is_char_boundary_start_end_of_seq(b);
    } else {
        assert(chars[k] as u8 == b[k]);
        assert(chars[k] <= '\u{7f}');
        vstd::utf8::is_char_boundary_iff_not_is_continuation_byte(b, k);
    }
}

proof fn lemma_suffix_boundary(bytes: Seq<u8>, a: int, b: int)
    requires
        valid_utf8(bytes),
        is_char_boundary(bytes, a),
        is_char_boundary(bytes, b),
        a <= b,
    ensures
        0 <= a <= b <= bytes.len(),
        valid_utf8(bytes.subrange(a, bytes.len() as int)),
        is_char_boundary(bytes.subrange(a, bytes.len() as int), b - a),
{
    broadcast use vstd::utf8::group_utf8_lib;

    reveal_with_fuel(is_char_boundary, 1);
    assert(0 <= a <= bytes.len());
    assert(0 <= b <= bytes.len());
    let sub = bytes.subrange(a, bytes.len() as int);
    vstd::utf8::valid_utf8_split(bytes, a);
    assert(valid_utf8(sub));
    if b == bytes.len() {
        vstd::utf8::is_char_boundary_start_end_of_seq(sub);
        assert(is_char_boundary(sub, sub.len() as int));
    } else {
        assert(sub[b - a] == bytes[b]);
        vstd::utf8::is_char_boundary_iff_not_is_continuation_byte(bytes, b);
        vstd::utf8::is_char_boundary_iff_not_is_continuation_byte(sub, b - a);
        assert(is_char_boundary(sub, b - a));
    }
}

fn server_from_lines(ls: &Vec<String>, Ghost(all): Ghost<Seq<Seq<char>>>) -> (r: Option<Option<String>>)
    requires
        strings_view(ls@) == all,
    ensures
        match first_server_line(all) {
            None => r == Some(None::<String>),
            Some(l) => if server_cut_ok(l) {
                r matches Some(Some(v)) && v@ == server_value(l)
            } else {
                r is None
            },
        },
        (forall|j: int| 0 <= j < all.len() ==> is_ascii_chars(#[trigger] all[j])) ==> r is Some,
{
    let mut i: usize = 0;
    assert(all.subrange(0, all.len() as int) == all);
    while i < ls.len()
        invariant
            strings_view(ls@) == all,
            i <= ls.len(),
            first_server_line(all) == first_server_line(all.subrange(i as int, all.len() as int)),
        decreases ls.len() - i,
    {
        let ghost rest = all.subrange(i as int, all.len() as int);
        assert(rest[0] == ls@[i as int]@);
        assert(rest.drop_first() == all.subrange(i + 1, all.len() as int));
        let line = ls[i].as_str();
        let lower = to_lowercase(line);
        if starts_with(lower.as_str(), "server:") {
            proof {
                if forall|j: int| 0 <= j < all.len() ==> is_ascii_chars(#[trigger] all[j]) {
                    reveal_strlit("server:");
                    assert(is_ascii_chars(all[i as int]));
                    assert(lower@.len() >= 7);
                    lemma_ascii_boundary(line@, 7);
                }
            }
            if !line.is_char_boundary(7) {
                return None;
            }
            let (_, value) = line.split_at(7);
            proof {
                vstd::utf8::encode_utf8_decode_utf8(value@);
            }
            let v = trimmed(value);
            return Some(Some(v));
        }
        i = i + 1;
    }
    assert(all.subrange(i as int, all.len() as int).len() == 0);
    Some(None)
}

fn title_of(text: &str) -> (r: Option<Option<String>>)
    ensures
        match title_range(text@) {
            None => r == Some(None::<String>),
            Some((a, b)) => if cut_ok(text@, a, b) {
                r matches Some(Some(t)) && t@ == trim(decode_utf8(encode_utf8(text@).subrange(a, b)))
            } else {
                r is None
            },
        },
        is_ascii_chars(text@) ==> r is Some,
{
    let lower = to_lowercase(text);
    let hay = lower.as_str().as_bytes();
    let open_tag = "<title>".as_bytes();
    let close_tag = "</title>".as_bytes();
    proof {
        reveal_strlit("<title>");
        reveal_strlit("</title>");
        vstd::utf8::is_ascii_chars_encode_utf8("<title>"@);
        vstd::utf8::is_ascii_chars_encode_utf8("</title>"@);
        assert(open_tag@.len() == 7);
    }
    let open = find_bytes_exec(hay, open_tag);
    let close = find_bytes_exec(hay, close_tag);
    match (open, close) {
        (Some(s), Some(e)) => {
            assert(s + 7 <= hay@.len());
            if e > s && e - s > 7 {
                let a = s + 7;
                proof {
                    if is_ascii_chars(text@) {
                        lemma_ascii_lower_ascii(text@);
                        lemma_ascii_boundary(lower@, 0);
                        assert(e + 8 <= hay@.len());
                        lemma_ascii_boundary(text@, a as int);
                        lemma_ascii_boundary(text@, e as int);
                    }
                }
                if !text.is_char_boundary(a) || !text.is_char_boundary(e) {
                    return None;
                }
                proof {
                    broadcast use vstd::utf8::group_utf8_lib;
                    lemma_suffix_boundary(text.spec_bytes(), a as int, e as int);
                }
                let (_, tail) = text.split_at(a);
                let (middle, _) = tail.split_at(e - a);
                proof {
                    assert(middle.spec_bytes() =~= encode_utf8(text@).subrange(a as int, e as int));
                    vstd::utf8::encode_utf8_decode_utf8(middle@);
                }
                let t = trimmed(middle);
                Some(Some(t))
            } else {
                Some(None)
            }
        },
        _ => Some(None),
    }
}

/// The `Server` header value and page title of an HTTP answer, or `None`
/// when one of them cannot be cut out of the text at the offsets found.
pub fn http_fields(text: &str) -> (r: Option<(Option<String>, Option<String>)>)
    ensures
        r is None <==> !http_fields_ok(text@),
        r matches Some((s, t)) ==> s.deep_view() == http_server_of(text@) && t.deep_view()
            == http_title_of(text@),
        is_ascii_chars(text@) ==> r is Some,
{
    let ls = lines(text);
    proof {
        if is_ascii_chars(text@) {
            lemma_lines_ascii(text@);
        }
    }
    let server = server_from_lines(&ls, Ghost(lines_of(text@)));
    let title = title_of(text);
    match (server, title) {
        (Some(s), Some(t)) => Some((s, t)),
        _ => None,
    }
}

/// The banner of an HTTP service from the bytes of its answer; `None` when
/// the header value or the title cannot be cut out of the text, which never
/// happens to an answer in ASCII.
pub fn http_banner_from_response(response: &[u8]) -> (r: Option<Option<String>>)
    ensures
        r is None <==> !http_fields_ok(utf8_lossy(response@)),
        r matches Some(b) ==> b.deep_view() == http_banner_of(
            http_server_of(utf8_lossy(response@)),
            http_title_of(utf8_lossy(response@)),
        ),
        ascii_bytes(response@) ==> r is Some,
{
    let text = lossy_text(response);
    proof {
        if ascii_bytes(response@) {
            lemma_ascii_text_ascii(response@);
        }
    }
    match http_fields(text.as_str()) {
        Some((server, title)) => Some(http_banner(server, title)),
        None => None,
    }
}

} // verus!
