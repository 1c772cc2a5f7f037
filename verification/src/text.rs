//! Character-level text helpers shared by the parsers and report builders.

use vstd::prelude::*;

verus! {

broadcast use vstd::string::group_string_axioms;

/// `String::push`: appends `c` to `s`. The contract claims that the
/// string afterwards holds its old characters followed by `c`.
#[verifier::external_body]
pub fn push_char(s: &mut String, c: char)
    ensures
        final(s)@ == old(s)@.push(c),
{
    s.push(c);
}

/// The characters of a string slice, in order.
pub fn chars_of(s: &str) -> (v: Vec<char>)
    ensures
        v@ == s@,
{
    let mut v: Vec<char> = Vec::new();
    for c in it: s.chars()
        invariant
            v@ == it.seq().take(it.index() as int),
            it.seq() == s@,
    {
        v.push(c);
    }
    v
}

/// Appends the characters `v[lo..hi]` to `s`.
pub fn push_range(s: &mut String, v: &Vec<char>, lo: usize, hi: usize)
    requires
        lo <= hi <= v.len(),
    ensures
        final(s)@ == old(s)@ + v@.subrange(lo as int, hi as int),
{
    let mut i = lo;
    while i < hi
        invariant
            lo <= i <= hi <= v.len(),
            s@ == old(s)@ + v@.subrange(lo as int, i as int),
        decreases hi - i,
    {
        push_char(s, v[i]);
        assert(v@.subrange(lo as int, i + 1) == v@.subrange(lo as int, i as int).push(v@[i as int]));
        i = i + 1;
    }
}

/// Appends all characters of `t` to `s`.
pub fn push_str(s: &mut String, t: &str)
    ensures
        final(s)@ == old(s)@ + t@,
{
    let v = chars_of(t);
    push_range(s, &v, 0, v.len());
    assert(v@.subrange(0, v@.len() as int) == v@);
}

/// A string holding the characters `v[lo..hi]`.
pub fn string_of_range(v: &Vec<char>, lo: usize, hi: usize) -> (r: String)
    requires
        lo <= hi <= v.len(),
    ensures
        r@ == v@.subrange(lo as int, hi as int),
{
    let mut r = String::new();
    push_range(&mut r, v, lo, hi);
    r
}

/// A string with the same characters as `t`.
pub fn string_of(t: &str) -> (r: String)
    ensures
        r@ == t@,
{
    let mut r = String::new();
    push_str(&mut r, t);
    r
}

/// Whether two string slices hold the same characters.
pub fn str_equal(a: &str, b: &str) -> (r: bool)
    ensures
        r == (a@ == b@),
{
    let x = chars_of(a);
    let y = chars_of(b);
    if x.len() != y.len() {
        return false;
    }
    let mut i: usize = 0;
    while i < x.len()
        invariant
            x@ == a@,
            y@ == b@,
            x.len() == y.len(),
            i <= x.len(),
            forall|j: int| 0 <= j < i ==> x@[j] == y@[j],
        decreases x.len() - i,
    {
        if x[i] != y[i] {
            return false;
        }
        i = i + 1;
    }
    assert(x@ == y@);
    true
}

/// The ASCII lowercase of a character: `A` to `Z` become `a` to `z`, any
/// other character stays.
pub open spec fn ascii_lower(c: char) -> char {
    if 'A' <= c <= 'Z' {
        ((c as u32) + 32) as char
    } else {
        c
    }
}

/// Every byte of `b` is ASCII.
pub open spec fn ascii_bytes(b: Seq<u8>) -> bool {
    forall|i: int| 0 <= i < b.len() ==> b[i] < 128
}

/// The characters of ASCII bytes, one for each byte.
pub open spec fn ascii_text(b: Seq<u8>) -> Seq<char> {
    b.map_values(|x: u8| x as char)
}

/// Unicode `White_Space`, the set that `char::is_whitespace` and `str::trim` use.
pub open spec fn is_ws(c: char) -> bool {
    let n = c as u32;
    ||| 0x09 <= n <= 0x0d
    ||| n == 0x20
    ||| n == 0x85
    ||| n == 0xa0
    ||| n == 0x1680
    ||| 0x2000 <= n <= 0x200a
    ||| n == 0x2028
    ||| n == 0x2029
    ||| n == 0x202f
    ||| n == 0x205f
    ||| n == 0x3000
}

/// Whether `c` is Unicode white space.
pub fn is_whitespace(c: char) -> (r: bool)
    ensures
        r == is_ws(c),
{
    let n = c as u32;
    (0x09 <= n && n <= 0x0d) || n == 0x20 || n == 0x85 || n == 0xa0 || n == 0x1680
        || (0x2000 <= n && n <= 0x200a) || n == 0x2028 || n == 0x2029 || n == 0x202f
        || n == 0x205f || n == 0x3000
}

/// `s` without its leading white space.
pub open spec fn trim_start(s: Seq<char>) -> Seq<char>
    decreases s.len(),
{
    if s.len() > 0 && is_ws(s[0]) {
        trim_start(s.drop_first())
    } else {
        s
    }
}

/// `s` without its trailing white space.
pub open spec fn trim_end(s: Seq<char>) -> Seq<char>
    decreases s.len(),
{
    if s.len() > 0 && is_ws(s.last()) {
        trim_end(s.drop_last())
    } else {
        s
    }
}

/// `s` without leading and trailing white space, as `str::trim` gives it.
pub open spec fn trim(s: Seq<char>) -> Seq<char> {
    trim_end(trim_start(s))
}

/// The bounds of `trim(v[lo..hi])` within `v`.
pub fn trim_bounds(v: &Vec<char>, lo: usize, hi: usize) -> (r: (usize, usize))
    requires
        lo <= hi <= v.len(),
    ensures
        lo <= r.0 <= r.1 <= hi,
        v@.subrange(r.0 as int, r.1 as int) == trim(v@.subrange(lo as int, hi as int)),
{
    let mut a = lo;
    while a < hi && is_whitespace(v[a])
        invariant
            lo <= a <= hi <= v.len(),
            trim_start(v@.subrange(lo as int, hi as int)) == trim_start(
                v@.subrange(a as int, hi as int),
            ),
        decreases hi - a,
    {
        assert(v@.subrange(a as int, hi as int).drop_first() == v@.subrange(a + 1, hi as int));
        a = a + 1;
    }
    assert(trim_start(v@.subrange(a as int, hi as int)) == v@.subrange(a as int, hi as int));
    let mut b = hi;
    while b > a && is_whitespace(v[b - 1])
        invariant
            lo <= a <= b <= hi <= v.len(),
            trim_end(v@.subrange(a as int, hi as int)) == trim_end(
                v@.subrange(a as int, b as int),
            ),
        decreases b - a,
    {
        assert(v@.subrange(a as int, b as int).drop_last() == v@.subrange(a as int, b - 1));
        b = b - 1;
    }
    (a, b)
}

/// `str::trim` of a string slice.
pub fn trimmed(s: &str) -> (r: String)
    ensures
        r@ == trim(s@),
{
    let v = chars_of(s);
    let (a, b) = trim_bounds(&v, 0, v.len());
    assert(v@.subrange(0, v@.len() as int) == v@);
    string_of_range(&v, a, b)
}

/// The character of a decimal digit `d < 10`.
pub open spec fn digit_char(d: nat) -> char {
    ((d + 48) as u32) as char
}

/// The decimal rendering of `n`, as `format!("{}", n)` writes it.
pub open spec fn decimal(n: nat) -> Seq<char>
    decreases n,
{
    if n < 10 {
        seq![digit_char(n)]
    } else {
        decimal(n / 10).push(digit_char(n % 10))
    }
}

fn digit_to_char(d: usize) -> (c: char)
    requires
        d < 10,
    ensures
        c == digit_char(d as nat),
{
    let b: u8 = (d as u8) + 48;
    let c = b as char;
    assert(c == digit_char(d as nat)) by {
        assert((b as u32) == d + 48);
    }
    c
}

/// Appends the decimal rendering of `n` to `s`.
pub fn push_decimal(s: &mut String, n: usize)
    ensures
        final(s)@ == old(s)@ + decimal(n as nat),
    decreases n,
{
    if n >= 10 {
        push_decimal(s, n / 10);
    }
    let c = digit_to_char(n % 10);
    push_char(s, c);
}


/// Whether `v[lo..hi]` begins with the characters of `p`.
pub fn range_starts_with(v: &Vec<char>, lo: usize, hi: usize, p: &str) -> (r: bool)
    requires
        lo <= hi <= v.len(),
    ensures
        r == (p@.len() <= hi - lo && v@.subrange(lo as int, lo + p@.len()) == p@),
{
    let q = chars_of(p);
    if q.len() > hi - lo {
        return false;
    }
    let mut i: usize = 0;
    while i < q.len()
        invariant
            q@ == p@,
            q.len() <= hi - lo,
            lo <= hi <= v.len(),
            i <= q.len(),
            forall|j: int| 0 <= j < i ==> v@[lo + j] == q@[j],
        decreases q.len() - i,
    {
        if v[lo + i] != q[i] {
            assert(v@.subrange(lo as int, lo + p@.len())[i as int] != p@[i as int]);
            return false;
        }
        i = i + 1;
    }
    assert(v@.subrange(lo as int, lo + p@.len()) =~= p@);
    true
}

/// Whether `v[lo..hi]` ends with the characters of `p`.
pub fn range_ends_with(v: &Vec<char>, lo: usize, hi: usize, p: &str) -> (r: bool)
    requires
        lo <= hi <= v.len(),
    ensures
        r == (p@.len() <= hi - lo && v@.subrange(hi - p@.len(), hi as int) == p@),
{
    let q = chars_of(p);
    if q.len() > hi - lo {
        return false;
    }
    let start = hi - q.len();
    let mut i: usize = 0;
    while i < q.len()
        invariant
            q@ == p@,
            start + q.len() == hi,
            lo <= start,
            hi <= v.len(),
            i <= q.len(),
            forall|j: int| 0 <= j < i ==> v@[start + j] == q@[j],
        decreases q.len() - i,
    {
        if v[start + i] != q[i] {
            assert(v@.subrange(start as int, hi as int)[i as int] != p@[i as int]);
            return false;
        }
        i = i + 1;
    }
    assert(v@.subrange(start as int, hi as int) =~= p@);
    true
}

/// Whether `s` begins with `p`.
pub open spec fn has_prefix(s: Seq<char>, p: Seq<char>) -> bool {
    p.len() <= s.len() && s.subrange(0, p.len() as int) == p
}

/// Whether `s` ends with `p`.
pub open spec fn has_suffix(s: Seq<char>, p: Seq<char>) -> bool {
    p.len() <= s.len() && s.subrange(s.len() - p.len(), s.len() as int) == p
}

/// Whether `s` begins with `p`, as `str::starts_with` tells.
pub fn starts_with(s: &str, p: &str) -> (r: bool)
    ensures
        r == has_prefix(s@, p@),
{
    let v = chars_of(s);
    range_starts_with(&v, 0, v.len(), p)
}

/// Whether `s` ends with `p`, as `str::ends_with` tells.
pub fn ends_with(s: &str, p: &str) -> (r: bool)
    ensures
        r == has_suffix(s@, p@),
{
    let v = chars_of(s);
    range_ends_with(&v, 0, v.len(), p)
}


/// Whether `c` separates fields: the given separator, or white space when
/// `ws` holds.
pub open spec fn is_sep(c: char, sep: char, ws: bool) -> bool {
    if ws {
        is_ws(c)
    } else {
        c == sep
    }
}

/// The fields of `s` between separators, as `str::split` yields them: one
/// more field than there are separators.
pub open spec fn split_fields(s: Seq<char>, sep: char, ws: bool) -> Seq<Seq<char>>
    decreases s.len(),
{
    if s.len() == 0 {
        seq![Seq::<char>::empty()]
    } else if is_sep(s.last(), sep, ws) {
        split_fields(s.drop_last(), sep, ws).push(Seq::<char>::empty())
    } else {
        let f = split_fields(s.drop_last(), sep, ws);
        f.update(f.len() - 1, f.last().push(s.last()))
    }
}

/// The non-empty sequences among `fs`, in order.
pub open spec fn non_empty(fs: Seq<Seq<char>>) -> Seq<Seq<char>>
    decreases fs.len(),
{
    if fs.len() == 0 {
        fs
    } else if fs.last().len() == 0 {
        non_empty(fs.drop_last())
    } else {
        non_empty(fs.drop_last()).push(fs.last())
    }
}

/// The words of `s`, as `str::split_whitespace` yields them.
pub open spec fn words(s: Seq<char>) -> Seq<Seq<char>> {
    non_empty(split_fields(s, ' ', true))
}

/// `f` without one trailing carriage return.
pub open spec fn strip_cr(f: Seq<char>) -> Seq<char> {
    if f.len() > 0 && f.last() == '\r' {
        f.drop_last()
    } else {
        f
    }
}

/// Every field but the last ended at a line feed: those lose one trailing
/// carriage return.
pub open spec fn strip_line_ends(fs: Seq<Seq<char>>) -> Seq<Seq<char>> {
    Seq::new(fs.len(), |i: int| strip_cr(fs[i]))
}

/// The lines of `s`, as `str::lines` yields them: split at line feeds, a
/// carriage return before a line feed dropped, and no empty line after a
/// final line feed.
pub open spec fn lines_of(s: Seq<char>) -> Seq<Seq<char>> {
    let fs = split_fields(s, '\n', false);
    let body = strip_line_ends(fs.drop_last());
    if fs.last().len() == 0 {
        body
    } else {
        body.push(fs.last())
    }
}

/// The views of a sequence of strings.
pub open spec fn strings_view(v: Seq<String>) -> Seq<Seq<char>> {
    v.map_values(|s: String| s@)
}

pub(crate) proof fn lemma_split_fields_len(s: Seq<char>, sep: char, ws: bool)
    ensures
        split_fields(s, sep, ws).len() >= 1,
    decreases s.len(),
{
    if s.len() > 0 {
        lemma_split_fields_len(s.drop_last(), sep, ws);
    }
}

/// Field `k` of `fs` is `v[starts[k]..ends[k]]`.
pub open spec fn bounds_match(v: Seq<char>, starts: Seq<usize>, ends: Seq<usize>, fs: Seq<Seq<char>>) -> bool {
    &&& starts.len() == ends.len()
    &&& forall|k: int| 0 <= k < starts.len() ==> (#[trigger] starts[k]) <= ends[k] <= v.len()
        && v.subrange(starts[k] as int, ends[k] as int) == fs[k]
}

/// The fields of `v` between separators, with their bounds: field `i` is
/// `v[starts[i]..ends[i]]`.
pub(crate) fn field_bounds(v: &Vec<char>, sep: char, ws: bool) -> (r: (Vec<usize>, Vec<usize>))
    ensures
        r.0@.len() == split_fields(v@, sep, ws).len(),
        bounds_match(v@, r.0@, r.1@, split_fields(v@, sep, ws)),
{
    let mut starts: Vec<usize> = Vec::new();
    let mut ends: Vec<usize> = Vec::new();
    let mut field_start: usize = 0;
    let mut i: usize = 0;
    assert(v@.take(0) == Seq::<char>::empty());
    while i < v.len()
        invariant
            field_start <= i <= v.len(),
            starts@.len() + 1 == split_fields(v@.take(i as int), sep, ws).len(),
            bounds_match(v@, starts@, ends@, split_fields(v@.take(i as int), sep, ws)),
            split_fields(v@.take(i as int), sep, ws).last() == v@.subrange(
                field_start as int,
                i as int,
            ),
        decreases v.len() - i,
    {
        let ghost pre = split_fields(v@.take(i as int), sep, ws);
        assert(v@.take(i + 1).drop_last() == v@.take(i as int));
        assert(v@.take(i + 1).last() == v@[i as int]);
        let c = v[i];
        let is_separator = if ws { is_whitespace(c) } else { c == sep };
        if is_separator {
            let ghost old_starts = starts@;
            let ghost old_ends = ends@;
            starts.push(field_start);
            ends.push(i);
            proof {
                let post = split_fields(v@.take(i + 1), sep, ws);
                assert(post == pre.push(Seq::<char>::empty()));
                assert(starts@ == old_starts.push(field_start));
                assert(ends@ == old_ends.push(i));
                assert forall|k: int| 0 <= k < starts@.len() implies (#[trigger] starts@[k]) <= ends@[k] <= v@.len()
                    && v@.subrange(starts@[k] as int, ends@[k] as int) == post[k] by {
                    if k < starts@.len() - 1 {
                        assert(post[k] == pre[k]);
                        assert(starts@[k] == old_starts[k]);
                        assert(ends@[k] == old_ends[k]);
                        assert(old_starts[k] <= old_ends[k]);
                    } else {
                        assert(post[k] == pre.last());
                    }
                }
            }
            field_start = i + 1;
            assert(v@.subrange(field_start as int, i + 1) =~= Seq::<char>::empty());
        } else {
            proof {
                let post = split_fields(v@.take(i + 1), sep, ws);
                assert(post == pre.update(pre.len() - 1, pre.last().push(c)));
                assert forall|k: int| 0 <= k < starts@.len() implies (#[trigger] starts@[k]) <= ends@[k] <= v@.len()
                    && v@.subrange(starts@[k] as int, ends@[k] as int) == post[k] by {
                    assert(post[k] == pre[k]);
                }
                assert(v@.subrange(field_start as int, i + 1) == v@.subrange(
                    field_start as int,
                    i as int,
                ).push(c));
            }
        }
        i = i + 1;
    }
    assert(v@.take(v.len() as int) == v@);
    let ghost old_starts = starts@;
    let ghost old_ends = ends@;
    starts.push(field_start);
    ends.push(v.len());
    proof {
        let fs = split_fields(v@, sep, ws);
        assert(starts@ == old_starts.push(field_start));
        assert(ends@ == old_ends.push(v.len()));
        assert forall|k: int| 0 <= k < starts@.len() implies (#[trigger] starts@[k]) <= ends@[k] <= v@.len()
            && v@.subrange(starts@[k] as int, ends@[k] as int) == fs[k] by {
            if k == starts@.len() - 1 {
                assert(fs[k] == fs.last());
            } else {
                assert(starts@[k] == old_starts[k]);
                assert(ends@[k] == old_ends[k]);
                assert(old_starts[k] <= old_ends[k]);
            }
        }
    }
    (starts, ends)
}

/// The words of `s`, as `str::split_whitespace` yields them.
pub fn split_whitespace(s: &str) -> (r: Vec<String>)
    ensures
        strings_view(r@) == words(s@),
{
    let v = chars_of(s);
    let (starts, ends) = field_bounds(&v, ' ', true);
    let ghost fs = split_fields(v@, ' ', true);
    let mut out: Vec<String> = Vec::new();
    let mut k: usize = 0;
    while k < starts.len()
        invariant
            v@ == s@,
            fs == split_fields(v@, ' ', true),
            starts@.len() == fs.len(),
            bounds_match(v@, starts@, ends@, fs),
            k <= starts.len(),
            strings_view(out@) == non_empty(fs.take(k as int)),
        decreases starts.len() - k,
    {
        assert(fs.take(k + 1).drop_last() == fs.take(k as int));
        assert(fs.take(k + 1).last() == fs[k as int]);
        assert(starts@[k as int] <= ends@[k as int]);
        if starts[k] < ends[k] {
            let w = string_of_range(&v, starts[k], ends[k]);
            out.push(w);
            assert(strings_view(out@) =~= non_empty(fs.take(k + 1)));
        }
        k = k + 1;
    }
    assert(fs.take(fs.len() as int) == fs);
    out
}

/// The lines of `s`, as `str::lines` yields them.
pub fn lines(s: &str) -> (r: Vec<String>)
    ensures
        strings_view(r@) == lines_of(s@),
{
    let v = chars_of(s);
    let (starts, ends) = field_bounds(&v, '\n', false);
    let ghost fs = split_fields(v@, '\n', false);
    proof {
        lemma_split_fields_len(v@, '\n', false);
    }
    let n = starts.len();
    let mut out: Vec<String> = Vec::new();
    let mut k: usize = 0;
    while k + 1 < n
        invariant
            v@ == s@,
            fs == split_fields(v@, '\n', false),
            n == starts@.len(),
            n == fs.len(),
            n >= 1,
            bounds_match(v@, starts@, ends@, fs),
            k + 1 <= n,
            strings_view(out@) == strip_line_ends(fs.take(k as int)),
        decreases n - k,
    {
        let a = starts[k];
        let mut b = ends[k];
        assert(starts@[k as int] <= ends@[k as int]);
        let ghost f = fs[k as int];
        assert(v@.subrange(a as int, b as int) == f);
        if b > a && v[b - 1] == '\r' {
            assert(f.last() == v@[b - 1]);
            assert(v@.subrange(a as int, b - 1) == f.drop_last());
            b = b - 1;
        } else {
            assert(f.len() > 0 ==> f.last() == v@[b - 1]);
        }
        assert(v@.subrange(a as int, b as int) == strip_cr(f));
        let line = string_of_range(&v, a, b);
        let ghost old_out = out@;
        out.push(line);
        proof {
            let want = strip_line_ends(fs.take(k + 1));
            let prev = strip_line_ends(fs.take(k as int));
            assert(prev.len() == k);
            assert(strings_view(old_out).len() == old_out.len());
            assert(old_out.len() == k);
            assert(out@.len() == k + 1);
            assert(want.len() == k + 1);
            assert(strings_view(out@).len() == want.len());
            assert forall|i: int| 0 <= i < want.len() implies strings_view(out@)[i] == want[i] by {
                if i < k {
                    assert(out@[i] == old_out[i]);
                    assert(strings_view(old_out)[i] == prev[i]);
                    assert(fs.take(k + 1)[i] == fs.take(k as int)[i]);
                } else {
                    assert(out@[i] == line);
                    assert(fs.take(k + 1)[i] == f);
                }
            }
            assert(strings_view(out@) =~= want);
        }
        k = k + 1;
    }
    assert(fs.take(k as int) == fs.drop_last());
    let a = starts[n - 1];
    let b = ends[n - 1];
    assert(starts@[n - 1] <= ends@[n - 1]);
    assert(v@.subrange(a as int, b as int) == fs.last());
    if a < b {
        let line = string_of_range(&v, a, b);
        out.push(line);
        assert(strings_view(out@) =~= lines_of(s@));
    }
    out
}

/// Whether `p` occurs in `s`.
pub open spec fn contains_seq(s: Seq<char>, p: Seq<char>) -> bool {
    exists|i: int| 0 <= i && i + p.len() <= s.len() && #[trigger] s.subrange(i, i + p.len()) == p
}

/// Whether `p` occurs in `s`, as `str::contains` tells.
pub fn contains(s: &str, p: &str) -> (r: bool)
    ensures
        r == contains_seq(s@, p@),
{
    let v = chars_of(s);
    let plen = chars_of(p).len();
    if plen > v.len() {
        return false;
    }
    let last = v.len() - plen;
    let mut i: usize = 0;
    loop
        invariant
            v@ == s@,
            plen == p@.len(),
            plen <= v.len(),
            last == v.len() - plen,
            i <= last,
            forall|j: int| 0 <= j < i ==> #[trigger] v@.subrange(j, j + p@.len()) != p@,
        decreases last - i,
    {
        if range_starts_with(&v, i, v.len(), p) {
            assert(v@.subrange(i as int, i + p@.len()) == p@);
            return true;
        }
        if i == last {
            assert forall|j: int| 0 <= j && j + p@.len() <= v@.len() implies #[trigger] v@.subrange(j, j + p@.len()) != p@ by {
                assert(j <= i);
            }
            return false;
        }
        i = i + 1;
    }
}

} // verus!
