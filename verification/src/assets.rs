//! Which embedded file answers a request path, and with what content type.

use vstd::prelude::*;
use crate::text::{chars_of, ends_with, starts_with, has_prefix, has_suffix, push_range, push_str, str_equal, string_of};

verus! {

broadcast use vstd::string::group_string_axioms;

/// `s` without its leading slashes.
pub open spec fn strip_leading_slashes(s: Seq<char>) -> Seq<char>
    decreases s.len(),
{
    if s.len() > 0 && s[0] == '/' {
        strip_leading_slashes(s.drop_first())
    } else {
        s
    }
}

/// The path of the embedded file for a request path: leading slashes are
/// dropped, a directory (or the root) gets `index.html`, and a leading
/// `main/` is removed.
pub open spec fn asset_path_of(uri_path: Seq<char>) -> Seq<char> {
    let p = strip_leading_slashes(uri_path);
    let p = if p.len() == 0 || p.last() == '/' {
        p + "index.html"@
    } else {
        p
    };
    if has_prefix(p, "main/"@) {
        p.subrange(5, p.len() as int)
    } else {
        p
    }
}

/// The path of the embedded file for a request path.
pub fn asset_path(uri_path: &str) -> (r: String)
    ensures
        r@ == asset_path_of(uri_path@),
{
    let v = chars_of(uri_path);
    let mut a: usize = 0;
    assert(v@.subrange(0, v@.len() as int) == v@);
    while a < v.len() && v[a] == '/'
        invariant
            a <= v.len(),
            strip_leading_slashes(v@) == strip_leading_slashes(v@.subrange(a as int, v@.len() as int)),
        decreases v.len() - a,
    {
        assert(v@.subrange(a as int, v@.len() as int).drop_first() == v@.subrange(
            a + 1,
            v@.len() as int,
        ));
        a = a + 1;
    }
    assert(v@.subrange(0, v@.len() as int) == v@);
    let ghost stripped = v@.subrange(a as int, v@.len() as int);
    assert(strip_leading_slashes(stripped) == stripped);
    let mut path = String::new();
    push_range(&mut path, &v, a, v.len());
    assert(path@ == stripped);
    if a == v.len() || v[v.len() - 1] == '/' {
        push_str(&mut path, "index.html");
    }
    let w = chars_of(path.as_str());
    proof {
        reveal_strlit("main/");
    }
    if starts_with(path.as_str(), "main/") {
        let mut out = String::new();
        push_range(&mut out, &w, 5, w.len());
        out
    } else {
        path
    }
}

/// What `mime_guess::from_path(path).first_or_octet_stream()` gives, as text.
pub uninterp spec fn guessed_mime(path: Seq<char>) -> Seq<char>;

/// `mime_guess::from_path` with `first_or_octet_stream`: the first MIME
/// type that the crate's built-in table gives the path's extension, or
/// `application/octet-stream`, as text. The result is named by
/// [`guessed_mime`]; nothing else is claimed of it.
#[verifier::external_body]
fn guess_mime(path: &str) -> (r: String)
    ensures
        r@ == guessed_mime(path@),
{
    mime_guess::from_path(path).first_or_octet_stream().to_string()
}

/// The content type of an embedded file: the guessed type, except that an
/// unknown type is replaced by the type of a stylesheet, script, SVG image
/// or HTML page when the path ends so.
pub open spec fn content_type_of(path: Seq<char>, guessed: Seq<char>) -> Seq<char> {
    if guessed == "application/octet-stream"@ {
        if has_suffix(path, ".css"@) {
            "text/css"@
        } else if has_suffix(path, ".js"@) {
            "application/javascript"@
        } else if has_suffix(path, ".svg"@) {
            "image/svg+xml"@
        } else if has_suffix(path, ".html"@) {
            "text/html; charset=utf-8"@
        } else {
            guessed
        }
    } else {
        guessed
    }
}

/// The content type of an embedded file, from a guessed type.
pub fn content_type_for(path: &str, guessed: String) -> (r: String)
    ensures
        r@ == content_type_of(path@, guessed@),
{
    if str_equal(guessed.as_str(), "application/octet-stream") {
        if ends_with(path, ".css") {
            string_of("text/css")
        } else if ends_with(path, ".js") {
            string_of("application/javascript")
        } else if ends_with(path, ".svg") {
            string_of("image/svg+xml")
        } else if ends_with(path, ".html") {
            string_of("text/html; charset=utf-8")
        } else {
            guessed
        }
    } else {
        guessed
    }
}

/// The content type of an embedded file.
pub fn content_type(path: &str) -> (r: String)
    ensures
        r@ == content_type_of(path@, guessed_mime(path@)),
{
    let guessed = guess_mime(path);
    content_type_for(path, guessed)
}

/// Whether a request for a missing file is answered with `index.html`:
/// every missing path except `index.html` itself is.
pub fn falls_back_to_index(path: &str) -> (r: bool)
    ensures
        r == (path@ != "index.html"@),
{
    !str_equal(path, "index.html")
}

} // verus!
