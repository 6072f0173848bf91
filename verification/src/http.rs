//! HTTP/1.1 message handling shared by the Unix socket and named pipe clients:
//! status line and header parsing, header lookup, request serialisation.
use vstd::prelude::*;
use crate::text;
use vstd::utf8::encode_utf8;
use crate::text::{
    char_is_ws, chars_eq, chars_of, eq_ignore_ascii_case, lower_range, owned, parse_unsigned_range,
    skip_ws_back_exec, skip_ws_exec, string_from_range,
};

verus! {

broadcast use vstd::string::group_string_axioms;

/// HTTP response container.
pub struct Response {
    pub status: u16,
    pub headers: Vec<(String, String)>,
    pub body: Vec<u8>,
}

/// A header list as pairs of character sequences.
pub open spec fn headers_view(h: Seq<(String, String)>) -> Seq<(Seq<char>, Seq<char>)> {
    h.map_values(|p: (String, String)| (p.0@, p.1@))
}

// ---------------------------------------------------------------------------
// Status line
// ---------------------------------------------------------------------------

/// One past the end of the run of non-whitespace characters starting at `lo`.
pub open spec fn token_end(s: Seq<char>, lo: int, hi: int) -> int
    decreases hi - lo,
{
    if lo < hi && !text::is_ws(s[lo]) {
        token_end(s, lo + 1, hi)
    } else {
        lo
    }
}

proof fn lemma_token_end_bounds(s: Seq<char>, lo: int, hi: int)
    requires
        lo <= hi,
    ensures
        lo <= token_end(s, lo, hi) <= hi,
    decreases hi - lo,
{
    if lo < hi {
        lemma_token_end_bounds(s, lo + 1, hi);
    }
}

fn token_end_exec(v: &Vec<char>, lo: usize, hi: usize) -> (r: usize)
    requires
        lo <= hi <= v.len(),
    ensures
        r == token_end(v@, lo as int, hi as int),
        lo <= r <= hi,
{
    proof {
        lemma_token_end_bounds(v@, lo as int, hi as int);
    }
    let mut i = lo;
    while i < hi && !char_is_ws(v[i])
        invariant
            lo <= i <= hi <= v.len(),
            token_end(v@, i as int, hi as int) == token_end(v@, lo as int, hi as int),
        decreases hi - i,
    {
        i = i + 1;
    }
    i
}

pub open spec fn http_prefix() -> Seq<char> {
    seq!['H', 'T', 'T', 'P', '/']
}

/// Whether `s[lo..hi]` begins with `p`.
pub open spec fn starts_with_at(s: Seq<char>, lo: int, hi: int, p: Seq<char>) -> bool {
    lo + p.len() <= hi && s.subrange(lo, lo + p.len()) == p
}

/// The status code of a status line such as `HTTP/1.1 200 OK`: the first
/// whitespace-separated word must start with `HTTP/` and the second must be a
/// decimal number that fits in 16 bits.
pub open spec fn status_line_result(s: Seq<char>) -> Result<u16, Seq<char>> {
    let n = s.len() as int;
    let a = text::skip_ws(s, 0, n);
    let b = token_end(s, a, n);
    let c = text::skip_ws(s, b, n);
    let d = token_end(s, c, n);
    if a == n || !starts_with_at(s, a, b, http_prefix()) {
        Err("malformed status line"@)
    } else if c == n {
        Err("missing status code"@)
    } else {
        match text::parse_unsigned(s.subrange(c, d), 10, 65535) {
            Some(code) => Ok(code as u16),
            None => Err("invalid status code"@),
        }
    }
}

/// Parse an HTTP status line (e.g., "HTTP/1.1 200 OK") and return the status code.
pub fn parse_status_line(line: &str) -> (r: Result<u16, String>)
    ensures
        match r {
            Ok(code) => status_line_result(line@) == Ok::<u16, Seq<char>>(code),
            Err(e) => status_line_result(line@) == Err::<u16, Seq<char>>(e@),
        },
{
    let v = chars_of(line);
    let n = v.len();
    let a = skip_ws_exec(&v, 0, n);
    let b = token_end_exec(&v, a, n);
    if a == n {
        return Err(owned("malformed status line"));
    }
    let p = http_prefix_exec();
    let mut ok = b - a >= 5;
    let mut k: usize = 0;
    while ok && k < 5
        invariant
            0 <= k <= 5,
            p@ == http_prefix(),
            a <= b <= n == v.len(),
            ok ==> a + 5 <= b,
            ok ==> forall|j: int| 0 <= j < k ==> v@[a + j] == http_prefix()[j],
            !ok ==> !starts_with_at(v@, a as int, b as int, http_prefix()),
        decreases 5 - k + (if ok { 1int } else { 0int }),
    {
        if v[a + k] != p[k] {
            ok = false;
            assert(v@.subrange(a as int, a + 5)[k as int] != http_prefix()[k as int]);
        } else {
            k = k + 1;
        }
    }
    if ok {
        assert(v@.subrange(a as int, a + 5) =~= http_prefix());
    }
    if !ok {
        return Err(owned("malformed status line"));
    }
    let c = skip_ws_exec(&v, b, n);
    let d = token_end_exec(&v, c, n);
    if c == n {
        return Err(owned("missing status code"));
    }
    match parse_unsigned_range(&v, c, d, 10, 65535) {
        Some(code) => Ok(code as u16),
        None => Err(owned("invalid status code")),
    }
}

fn http_prefix_exec() -> (p: Vec<char>)
    ensures
        p@ == http_prefix(),
{
    let p = vec!['H', 'T', 'T', 'P', '/'];
    assert(p@ =~= http_prefix());
    p
}

// ---------------------------------------------------------------------------
// Splitting text into lines
// ---------------------------------------------------------------------------

pub open spec fn crlf_at(s: Seq<char>, i: int) -> bool {
    0 <= i && i + 1 < s.len() && s[i] == '\r' && s[i + 1] == '\n'
}

/// Position of the first `\r\n` at or after `k`, or `s.len()` when there is none.
pub open spec fn next_crlf(s: Seq<char>, k: int) -> int
    decreases s.len() - k,
{
    if k < 0 || k + 1 >= s.len() {
        s.len() as int
    } else if crlf_at(s, k) {
        k
    } else {
        next_crlf(s, k + 1)
    }
}

pub proof fn lemma_next_crlf(s: Seq<char>, k: int)
    requires
        0 <= k,
    ensures
        next_crlf(s, k) == s.len() || (k <= next_crlf(s, k) && crlf_at(s, next_crlf(s, k))),
        next_crlf(s, k) >= k || next_crlf(s, k) == s.len(),
        forall|j: int| k <= j < next_crlf(s, k) ==> !crlf_at(s, j),
    decreases s.len() - k,
{
    if k + 1 < s.len() && !crlf_at(s, k) {
        lemma_next_crlf(s, k + 1);
    }
}

/// Position of the first occurrence of `c` at or after `k`, or `s.len()`.
pub open spec fn next_char(s: Seq<char>, c: char, k: int) -> int
    decreases s.len() - k,
{
    if k < 0 || k >= s.len() {
        s.len() as int
    } else if s[k] == c {
        k
    } else {
        next_char(s, c, k + 1)
    }
}

pub proof fn lemma_next_char(s: Seq<char>, c: char, k: int)
    requires
        0 <= k,
    ensures
        next_char(s, c, k) == s.len() || (k <= next_char(s, c, k) < s.len() && s[next_char(
            s,
            c,
            k,
        )] == c),
        next_char(s, c, k) >= k || next_char(s, c, k) == s.len(),
        next_char(s, c, k) <= s.len(),
        forall|j: int| k <= j < next_char(s, c, k) ==> s[j] != c,
    decreases s.len() - k,
{
    if k < s.len() && s[k] != c {
        lemma_next_char(s, c, k + 1);
    }
}

fn next_crlf_exec(v: &Vec<char>, k: usize) -> (r: usize)
    requires
        k <= v.len(),
    ensures
        r == next_crlf(v@, k as int),
        k <= r <= v.len(),
{
    let mut i = k;
    while i < v.len() && i + 1 < v.len() && !(v[i] == '\r' && v[i + 1] == '\n')
        invariant
            k <= i <= v.len(),
            next_crlf(v@, i as int) == next_crlf(v@, k as int),
        decreases v.len() - i,
    {
        i = i + 1;
    }
    if i < v.len() && i + 1 < v.len() {
        i
    } else {
        v.len()
    }
}

/// Position of the first `c` in `v`, or `v.len()`.
pub fn find_char(v: &Vec<char>, c: char) -> (r: usize)
    ensures
        r == next_char(v@, c, 0),
        r <= v.len(),
{
    let mut i: usize = 0;
    while i < v.len() && v[i] != c
        invariant
            i <= v.len(),
            next_char(v@, c, i as int) == next_char(v@, c, 0),
        decreases v.len() - i,
    {
        i = i + 1;
    }
    i
}

fn next_char_exec(v: &Vec<char>, c: char, lo: usize, hi: usize) -> (r: usize)
    requires
        lo <= hi <= v.len(),
    ensures
        r == (if next_char(v@.subrange(0, hi as int), c, lo as int) == hi { hi as int } else {
            next_char(v@.subrange(0, hi as int), c, lo as int)
        }),
        lo <= r <= hi,
        r < hi ==> v@[r as int] == c,
        forall|j: int| lo <= j < r ==> v@[j] != c,
{
    let ghost w = v@.subrange(0, hi as int);
    let mut i = lo;
    while i < hi && v[i] != c
        invariant
            lo <= i <= hi <= v.len(),
            w == v@.subrange(0, hi as int),
            next_char(w, c, i as int) == next_char(w, c, lo as int),
            forall|j: int| lo <= j < i ==> v@[j] != c,
        decreases hi - i,
    {
        i = i + 1;
    }
    i
}

// ---------------------------------------------------------------------------
// Response header block (`Name: value` lines separated by CRLF)
// ---------------------------------------------------------------------------

/// The header a response line carries: the text before the first `:` and the
/// text after it with leading whitespace removed; empty lines and lines
/// without a colon carry none.
pub open spec fn header_of_line(line: Seq<char>) -> Option<(Seq<char>, Seq<char>)> {
    let i = next_char(line, ':', 0);
    if line.len() == 0 || i == line.len() {
        None
    } else {
        Some((line.subrange(0, i), text::trim_start(line.subrange(i + 1, line.len() as int))))
    }
}

pub open spec fn opt_seq<A>(o: Option<A>) -> Seq<A> {
    match o {
        Some(a) => seq![a],
        None => seq![],
    }
}

/// Headers of the CRLF-separated lines of `s` that start at or after `k`.
pub open spec fn crlf_headers_from(s: Seq<char>, k: int) -> Seq<(Seq<char>, Seq<char>)>
    decreases s.len() + 2 - k,
{
    if k < 0 || k > s.len() {
        seq![]
    } else {
        let e = next_crlf(s, k);
        let line = s.subrange(k, e);
        if e >= s.len() || e < k {
            opt_seq(header_of_line(line))
        } else {
            opt_seq(header_of_line(line)) + crlf_headers_from(s, e + 2)
        }
    }
}

/// The headers of a CRLF-separated header block.
pub open spec fn crlf_headers(s: Seq<char>) -> Seq<(Seq<char>, Seq<char>)> {
    crlf_headers_from(s, 0)
}

/// The header carried by `v[lo..hi]`, built as `header_of_line` describes.
fn header_of_range(v: &Vec<char>, lo: usize, hi: usize) -> (r: Option<(String, String)>)
    requires
        lo <= hi <= v.len(),
    ensures
        match r {
            Some(p) => header_of_line(v@.subrange(lo as int, hi as int)) == Some((p.0@, p.1@)),
            None => header_of_line(v@.subrange(lo as int, hi as int)) is None,
        },
{
    let ghost line = v@.subrange(lo as int, hi as int);
    if lo == hi {
        return None;
    }
    let i = next_char_exec(v, ':', lo, hi);
    proof {
        lemma_next_char(line, ':', 0);
        lemma_next_char_window(v@, ':', lo as int, hi as int);
    }
    if i == hi {
        return None;
    }
    let name = string_from_range(v, lo, i);
    let vs = skip_ws_exec(v, i + 1, hi);
    let value = string_from_range(v, vs, hi);
    proof {
        text::lemma_skip_ws_is_trim_start(v@, i + 1, hi as int);
        assert(line.subrange(0, i - lo) =~= v@.subrange(lo as int, i as int));
        assert(line.subrange(i - lo + 1, line.len() as int) =~= v@.subrange(i + 1, hi as int));
    }
    Some((name, value))
}

/// Relates a search inside the window `v[lo..hi]` to `next_char` on the window.
proof fn lemma_next_char_window(s: Seq<char>, c: char, lo: int, hi: int)
    requires
        0 <= lo <= hi <= s.len(),
    ensures
        next_char(s.subrange(lo, hi), c, 0) + lo == (if next_char(s.subrange(0, hi), c, lo) == hi {
            hi
        } else {
            next_char(s.subrange(0, hi), c, lo)
        }),
    decreases hi - lo,
{
    let w = s.subrange(lo, hi);
    let t = s.subrange(0, hi);
    lemma_next_char(w, c, 0);
    lemma_next_char(t, c, lo);
    if lo < hi {
        if s[lo] == c {
            assert(w[0] == c);
            assert(t[lo] == c);
        } else {
            assert(w[0] != c);
            lemma_next_char_window(s, c, lo + 1, hi);
            lemma_next_char_shift(w, c);
            assert(w.drop_first() =~= s.subrange(lo + 1, hi));
        }
    }
}

/// Searching from position 1 is searching the tail.
proof fn lemma_next_char_shift(w: Seq<char>, c: char)
    requires
        w.len() > 0,
    ensures
        next_char(w, c, 1) == next_char(w.drop_first(), c, 0) + 1,
{
    lemma_next_char_shift_from(w, c, 1);
}

proof fn lemma_next_char_shift_from(w: Seq<char>, c: char, k: int)
    requires
        w.len() > 0,
        1 <= k,
    ensures
        next_char(w, c, k) == next_char(w.drop_first(), c, k - 1) + 1,
    decreases w.len() - k,
{
    if k < w.len() && w[k] != c {
        lemma_next_char_shift_from(w, c, k + 1);
    }
}

/// Parse raw header lines into a vector of (name, value) pairs.
pub fn parse_headers(raw: &str) -> (out: Vec<(String, String)>)
    ensures
        headers_view(out@) == crlf_headers(raw@),
{
    let v = chars_of(raw);
    let n = v.len();
    let mut out: Vec<(String, String)> = Vec::new();
    let mut k: usize = 0;
    loop
        invariant
            n == v.len(),
            v@ == raw@,
            k <= n,
            crlf_headers(v@) == headers_view(out@) + crlf_headers_from(v@, k as int),
        decreases n + 2 - k,
    {
        let e = next_crlf_exec(&v, k);
        let h = header_of_range(&v, k, e);
        let ghost before = out@;
        match h {
            Some(p) => {
                out.push(p);
            },
            None => {},
        }
        proof {
            assert(headers_view(out@) =~= headers_view(before) + opt_seq(
                header_of_line(v@.subrange(k as int, e as int)),
            ));
        }
        if e >= n {
            assert(crlf_headers(v@) =~= headers_view(out@));
            return out;
        }
        proof {
            lemma_next_crlf(v@, k as int);
        }
        assert(crlf_headers(v@) =~= headers_view(out@) + crlf_headers_from(v@, e + 2));
        k = e + 2;
    }
}

// ---------------------------------------------------------------------------
// Header lines handed over by a caller (`Name: Value`, LF or CRLF separated)
// ---------------------------------------------------------------------------

/// The header a caller-supplied line carries: the line is trimmed, and a
/// non-empty name before the first `:` is required.
pub open spec fn header_of_input_line(raw_line: Seq<char>) -> Option<(Seq<char>, Seq<char>)> {
    let line = text::trim(raw_line);
    let i = next_char(line, ':', 0);
    if line.len() == 0 || i == line.len() || i == 0 {
        None
    } else {
        Some((line.subrange(0, i), text::trim_start(line.subrange(i + 1, line.len() as int))))
    }
}

/// Headers of the LF-separated lines of `s` that start at or after `k`.
pub open spec fn lf_headers_from(s: Seq<char>, k: int) -> Seq<(Seq<char>, Seq<char>)>
    decreases s.len() + 1 - k,
{
    if k < 0 || k > s.len() {
        seq![]
    } else {
        let e = next_char(s, '\n', k);
        let line = s.subrange(k, e);
        if e >= s.len() || e < k {
            opt_seq(header_of_input_line(line))
        } else {
            opt_seq(header_of_input_line(line)) + lf_headers_from(s, e + 1)
        }
    }
}

pub open spec fn lf_headers(s: Seq<char>) -> Seq<(Seq<char>, Seq<char>)> {
    lf_headers_from(s, 0)
}

fn input_header_of_range(v: &Vec<char>, lo: usize, hi: usize) -> (r: Option<(String, String)>)
    requires
        lo <= hi <= v.len(),
    ensures
        match r {
            Some(p) => header_of_input_line(v@.subrange(lo as int, hi as int)) == Some(
                (p.0@, p.1@),
            ),
            None => header_of_input_line(v@.subrange(lo as int, hi as int)) is None,
        },
{
    let ghost raw = v@.subrange(lo as int, hi as int);
    let a = skip_ws_exec(v, lo, hi);
    let b = skip_ws_back_exec(v, a, hi);
    let ghost line = v@.subrange(a as int, b as int);
    proof {
        text::lemma_skip_ws_is_trim_start(v@, lo as int, hi as int);
        text::lemma_skip_ws_back_is_trim_end(v@, a as int, hi as int);
        assert(text::trim(raw) == line);
    }
    if a == b {
        return None;
    }
    let i = next_char_exec(v, ':', a, b);
    proof {
        lemma_next_char(line, ':', 0);
        lemma_next_char_window(v@, ':', a as int, b as int);
    }
    if i == b || i == a {
        return None;
    }
    let name = string_from_range(v, a, i);
    let vs = skip_ws_exec(v, i + 1, b);
    let value = string_from_range(v, vs, b);
    proof {
        text::lemma_skip_ws_is_trim_start(v@, i + 1, b as int);
        assert(line.subrange(0, i - a) =~= v@.subrange(a as int, i as int));
        assert(line.subrange(i - a + 1, line.len() as int) =~= v@.subrange(i + 1, b as int));
    }
    Some((name, value))
}

/// Parse a raw header-lines string into vector of (name,value) pairs.
/// Lines are separated by `\n` (a trailing `\r` is whitespace and trimmed).
pub fn parse_header_lines(input: &str) -> (out: Vec<(String, String)>)
    ensures
        headers_view(out@) == lf_headers(input@),
{
    let v = chars_of(input);
    let n = v.len();
    let mut out: Vec<(String, String)> = Vec::new();
    let mut k: usize = 0;
    loop
        invariant
            n == v.len(),
            v@ == input@,
            k <= n,
            lf_headers(v@) == headers_view(out@) + lf_headers_from(v@, k as int),
        decreases n + 1 - k,
    {
        let e = next_char_exec(&v, '\n', k, n);
        proof {
            lemma_next_char(v@, '\n', k as int);
            assert(v@.subrange(0, n as int) =~= v@);
        }
        let h = input_header_of_range(&v, k, e);
        let ghost before = out@;
        match h {
            Some(p) => {
                out.push(p);
            },
            None => {},
        }
        proof {
            assert(headers_view(out@) =~= headers_view(before) + opt_seq(
                header_of_input_line(v@.subrange(k as int, e as int)),
            ));
        }
        if e >= n {
            assert(lf_headers(v@) =~= headers_view(out@));
            return out;
        }
        assert(lf_headers(v@) =~= headers_view(out@) + lf_headers_from(v@, e + 1));
        k = e + 1;
    }
}

// ---------------------------------------------------------------------------
// Lookup and serialisation
// ---------------------------------------------------------------------------

/// Index of the first header whose name equals `name` ignoring ASCII case.
pub open spec fn lookup_index_from(h: Seq<(Seq<char>, Seq<char>)>, name: Seq<char>, k: int) -> Option<int>
    decreases h.len() - k,
{
    if k < 0 || k >= h.len() {
        None
    } else if text::ascii_lower(h[k].0) == text::ascii_lower(name) {
        Some(k)
    } else {
        lookup_index_from(h, name, k + 1)
    }
}

/// The value of the first header named `name` (ignoring ASCII case).
pub open spec fn header_value(h: Seq<(Seq<char>, Seq<char>)>, name: Seq<char>) -> Option<Seq<char>> {
    match lookup_index_from(h, name, 0) {
        Some(i) => Some(h[i].1),
        None => None,
    }
}

pub proof fn lemma_lookup_index(h: Seq<(Seq<char>, Seq<char>)>, name: Seq<char>, k: int)
    requires
        0 <= k,
    ensures
        match lookup_index_from(h, name, k) {
            Some(i) => k <= i < h.len() && text::ascii_lower(h[i].0) == text::ascii_lower(name) && forall|
                j: int,
            | k <= j < i ==> text::ascii_lower(#[trigger] h[j].0) != text::ascii_lower(name),
            None => forall|j: int| k <= j < h.len() ==> text::ascii_lower(#[trigger] h[j].0) != text::ascii_lower(name),
        },
    decreases h.len() - k,
{
    if k < h.len() && text::ascii_lower(h[k].0) != text::ascii_lower(name) {
        lemma_lookup_index(h, name, k + 1);
    }
}

/// Look up a header value by name (case-insensitive).
pub fn header_lookup<'a>(headers: &'a [(String, String)], name: &str) -> (r: Option<&'a str>)
    ensures
        match r {
            Some(v) => header_value(headers_view(headers@), name@) == Some(v@),
            None => header_value(headers_view(headers@), name@) is None,
        },
{
    let nv = chars_of(name);
    let lname = lower_range(&nv, 0, nv.len());
    let ghost hv = headers_view(headers@);
    proof {
        assert(nv@.subrange(0, nv@.len() as int) =~= nv@);
    }
    let mut i: usize = 0;
    while i < headers.len()
        invariant
            i <= headers@.len(),
            hv == headers_view(headers@),
            lname@ == text::ascii_lower(name@),
            lookup_index_from(hv, name@, i as int) == lookup_index_from(hv, name@, 0),
        decreases headers@.len() - i,
    {
        let hn = chars_of(headers[i].0.as_str());
        let lh = lower_range(&hn, 0, hn.len());
        proof {
            assert(hn@.subrange(0, hn@.len() as int) =~= hn@);
        }
        if eq_ignore_ascii_case(&lh, &lname) {
            proof {
                lemma_ascii_lower_idempotent(hn@);
                lemma_ascii_lower_idempotent(name@);
            }
            return Some(headers[i].1.as_str());
        }
        proof {
            lemma_ascii_lower_idempotent(hn@);
            lemma_ascii_lower_idempotent(name@);
        }
        i = i + 1;
    }
    None
}

pub proof fn lemma_ascii_lower_idempotent(s: Seq<char>)
    ensures
        text::ascii_lower(text::ascii_lower(s)) == text::ascii_lower(s),
{
    assert(text::ascii_lower(text::ascii_lower(s)) =~= text::ascii_lower(s));
}

/// Header lines in wire form: `name: value\r\n` for each header, in order.
pub open spec fn serialized(h: Seq<(Seq<char>, Seq<char>)>) -> Seq<char>
    decreases h.len(),
{
    if h.len() == 0 {
        seq![]
    } else {
        serialized(h.drop_last()) + h.last().0 + ": "@ + h.last().1 + "\r\n"@
    }
}

/// Whether `s` holds no `\r\n`.
pub open spec fn no_crlf(s: Seq<char>) -> bool {
    forall|j: int| !#[trigger] crlf_at(s, j)
}

/// A header that survives serialization and parsing unchanged: its name has
/// no `:`, neither part holds `\r\n`, and the value does not start with
/// whitespace.
pub open spec fn plain_header(h: (Seq<char>, Seq<char>)) -> bool {
    &&& forall|i: int| 0 <= i < h.0.len() ==> h.0[i] != ':'
    &&& no_crlf(h.0)
    &&& no_crlf(h.1)
    &&& (h.1.len() > 0 ==> !text::is_ws(h.1[0]))
}

/// The serialized form of one header: `name: value\r\n`.
pub open spec fn header_text(h: (Seq<char>, Seq<char>)) -> Seq<char> {
    h.0 + ": "@ + h.1 + "\r\n"@
}

/// Parsing the serialized headers gives them back: what
/// `serialize_headers` writes, `parse_headers` reads as the same list.
pub proof fn lemma_serialize_parse_round_trip(h: Seq<(Seq<char>, Seq<char>)>)
    requires
        forall|i: int| 0 <= i < h.len() ==> plain_header(#[trigger] h[i]),
    ensures
        crlf_headers(serialized(h)) == h,
    decreases h.len(),
{
    if h.len() == 0 {
        lemma_crlf_headers_at_end(serialized(h));
        assert(crlf_headers(serialized(h)) =~= h);
    } else {
        let p = serialized(h.drop_last());
        let l = header_text(h.last());
        assert(forall|i: int| 0 <= i < h.drop_last().len() ==> h.drop_last()[i] == h[i]);
        lemma_serialize_parse_round_trip(h.drop_last());
        lemma_serialized_ends_with_crlf(h.drop_last());
        assert(serialized(h) =~= p + l);
        lemma_crlf_headers_prefix(p, l, 0);
        lemma_header_text_parses(h.last());
        assert(crlf_headers(serialized(h)) =~= h.drop_last() + seq![h.last()]);
        assert(h.drop_last() + seq![h.last()] =~= h);
    }
}

/// Serialized headers are empty or end with `\r\n`.
pub proof fn lemma_serialized_ends_with_crlf(h: Seq<(Seq<char>, Seq<char>)>)
    ensures
        serialized(h).len() == 0 || (serialized(h).len() >= 4 && crlf_at(
            serialized(h),
            serialized(h).len() - 2,
        )),
{
    reveal_strlit("\r\n");
    reveal_strlit(": ");
    if h.len() > 0 {
        let s = serialized(h);
        assert(s.len() >= 4);
        assert(s[s.len() - 2] == '\r');
        assert(s[s.len() - 1] == '\n');
    }
}

/// At the very end of a text there is one empty line, which carries no header.
pub proof fn lemma_crlf_headers_at_end(s: Seq<char>)
    ensures
        crlf_headers_from(s, s.len() as int) == Seq::<(Seq<char>, Seq<char>)>::empty(),
{
    assert(next_crlf(s, s.len() as int) == s.len());
    assert(s.subrange(s.len() as int, s.len() as int) =~= Seq::<char>::empty());
}

/// A search that finds `\r\n` inside `p` finds the same one in `p + l`.
proof fn lemma_next_crlf_prefix(p: Seq<char>, l: Seq<char>, k: int)
    requires
        0 <= k,
        next_crlf(p, k) < p.len(),
    ensures
        next_crlf(p + l, k) == next_crlf(p, k),
    decreases p.len() - k,
{
    if k + 1 < p.len() && !crlf_at(p, k) {
        assert(!crlf_at(p + l, k));
        lemma_next_crlf_prefix(p, l, k + 1);
    } else {
        assert(crlf_at(p + l, k));
    }
}

/// Searching `p + l` past `p` is searching `l`.
proof fn lemma_next_crlf_shift(p: Seq<char>, l: Seq<char>, j: int)
    requires
        0 <= j,
    ensures
        next_crlf(p + l, p.len() + j) == p.len() + next_crlf(l, j),
    decreases l.len() - j,
{
    let s = p + l;
    if j + 1 < l.len() {
        assert(s[p.len() + j] == l[j]);
        assert(s[p.len() + j + 1] == l[j + 1]);
        if !crlf_at(l, j) {
            lemma_next_crlf_shift(p, l, j + 1);
        }
    }
}

/// The headers of `p + l` from past `p` are those of `l`.
proof fn lemma_crlf_headers_shift(p: Seq<char>, l: Seq<char>, j: int)
    requires
        0 <= j,
    ensures
        crlf_headers_from(p + l, p.len() + j) == crlf_headers_from(l, j),
    decreases l.len() + 2 - j,
{
    let s = p + l;
    if j <= l.len() {
        lemma_next_crlf_shift(p, l, j);
        let e = next_crlf(l, j);
        lemma_next_crlf(l, j);
        assert(s.subrange(p.len() + j, p.len() + e) =~= l.subrange(j, e));
        if e < l.len() {
            lemma_crlf_headers_shift(p, l, e + 2);
        }
    }
}

/// When `p` is empty or ends with `\r\n`, the headers of `p + l` are those
/// of `p` followed by those of `l` (from any line start `k` of `p`).
pub proof fn lemma_crlf_headers_prefix(p: Seq<char>, l: Seq<char>, k: int)
    requires
        p.len() == 0 || (p.len() >= 2 && crlf_at(p, p.len() - 2)),
        0 <= k <= p.len(),
        k == p.len() || k + 2 <= p.len(),
    ensures
        crlf_headers_from(p + l, k) == crlf_headers_from(p, k) + crlf_headers(l),
    decreases p.len() - k,
{
    if k == p.len() {
        lemma_crlf_headers_at_end(p);
        lemma_crlf_headers_shift(p, l, 0);
        assert(crlf_headers_from(p, k) + crlf_headers(l) =~= crlf_headers(l));
    } else {
        lemma_next_crlf(p, k);
        let e = next_crlf(p, k);
        assert(e < p.len()) by {
            if e == p.len() {
                assert(!crlf_at(p, p.len() - 2));
            }
        }
        lemma_next_crlf_prefix(p, l, k);
        assert((p + l).subrange(k, e) =~= p.subrange(k, e));
        if e + 2 == p.len() - 1 {
            assert(p[e + 1] == '\n');
            assert(p[p.len() - 2] == '\r');
        }
        lemma_crlf_headers_prefix(p, l, e + 2);
        let first = opt_seq(header_of_line(p.subrange(k, e)));
        assert(first + (crlf_headers_from(p, e + 2) + crlf_headers(l)) =~= (first
            + crlf_headers_from(p, e + 2)) + crlf_headers(l));
    }
}

/// One serialized header parses back to itself.
proof fn lemma_header_text_parses(h: (Seq<char>, Seq<char>))
    requires
        plain_header(h),
    ensures
        crlf_headers(header_text(h)) == seq![h],
{
    reveal_strlit("\r\n");
    reveal_strlit(": ");
    let (name, value) = h;
    let l = header_text(h);
    let n = name.len() as int;
    assert(l =~= name + seq![':', ' '] + value + seq!['\r', '\n']);
    let e = l.len() - 2;
    assert(crlf_at(l, e));
    assert forall|j: int| 0 <= j < e implies !crlf_at(l, j) by {
        if j < n - 1 {
            assert(!crlf_at(name, j));
            assert(l[j] == name[j] && l[j + 1] == name[j + 1]);
        } else if j < n + 2 {
        } else if j < e - 1 {
            assert(!crlf_at(value, j - n - 2));
            assert(l[j] == value[j - n - 2] && l[j + 1] == value[j - n - 1]);
        }
    }
    lemma_next_crlf_first(l, 0, e);
    let line = l.subrange(0, e);
    assert(line =~= name + seq![':', ' '] + value);
    assert forall|j: int| 0 <= j < n implies line[j] != ':' by {
        assert(line[j] == name[j]);
    }
    lemma_next_char_first(line, ':', 0, n);
    assert(line.subrange(0, n) =~= name);
    let rest = line.subrange(n + 1, line.len() as int);
    assert(rest =~= seq![' '] + value);
    assert(text::is_ws(' '));
    assert(rest.drop_first() =~= value);
    assert(text::trim_start(rest) == text::trim_start(value));
    assert(text::trim_start(value) == value);
    lemma_crlf_headers_at_end(l);
    assert(crlf_headers(l) =~= seq![h]);
}

/// `next_crlf` stops at the first `\r\n`.
pub proof fn lemma_next_crlf_first(s: Seq<char>, k: int, e: int)
    requires
        0 <= k <= e,
        crlf_at(s, e),
        forall|j: int| k <= j < e ==> !crlf_at(s, j),
    ensures
        next_crlf(s, k) == e,
    decreases e - k,
{
    if k < e {
        lemma_next_crlf_first(s, k + 1, e);
    }
}

/// `next_char` stops at the first occurrence.
proof fn lemma_next_char_first(s: Seq<char>, c: char, k: int, e: int)
    requires
        0 <= k <= e < s.len(),
        s[e] == c,
        forall|j: int| k <= j < e ==> s[j] != c,
    ensures
        next_char(s, c, k) == e,
    decreases e - k,
{
    if k < e {
        lemma_next_char_first(s, c, k + 1, e);
    }
}

/// A header that survives serialization and line parsing unchanged: its name
/// is not empty, holds no `:`, and does not start with whitespace; neither
/// part holds a line feed; the value neither starts nor ends with whitespace.
pub open spec fn line_header(h: (Seq<char>, Seq<char>)) -> bool {
    &&& h.0.len() > 0
    &&& !text::is_ws(h.0[0])
    &&& forall|i: int| 0 <= i < h.0.len() ==> h.0[i] != ':' && h.0[i] != '\n'
    &&& forall|i: int| 0 <= i < h.1.len() ==> h.1[i] != '\n'
    &&& (h.1.len() > 0 ==> !text::is_ws(h.1[0]) && !text::is_ws(h.1.last()))
}

/// Line parsing reads serialized headers back: what `serialize_headers`
/// writes, `parse_header_lines` reads as the same list.
pub proof fn lemma_serialize_parse_lines_round_trip(h: Seq<(Seq<char>, Seq<char>)>)
    requires
        forall|i: int| 0 <= i < h.len() ==> line_header(#[trigger] h[i]),
    ensures
        lf_headers(serialized(h)) == h,
    decreases h.len(),
{
    if h.len() == 0 {
        lemma_lf_headers_at_end(serialized(h));
        assert(lf_headers(serialized(h)) =~= h);
    } else {
        let p = serialized(h.drop_last());
        let l = header_text(h.last());
        assert(forall|i: int| 0 <= i < h.drop_last().len() ==> h.drop_last()[i] == h[i]);
        lemma_serialize_parse_lines_round_trip(h.drop_last());
        lemma_serialized_ends_with_crlf(h.drop_last());
        assert(serialized(h) =~= p + l);
        lemma_lf_headers_prefix(p, l, 0);
        lemma_header_text_parses_as_line(h.last());
        assert(lf_headers(serialized(h)) =~= h.drop_last() + seq![h.last()]);
        assert(h.drop_last() + seq![h.last()] =~= h);
    }
}

/// At the very end of a text there is one empty line, which carries no header.
proof fn lemma_lf_headers_at_end(s: Seq<char>)
    ensures
        lf_headers_from(s, s.len() as int) == Seq::<(Seq<char>, Seq<char>)>::empty(),
{
    let e = s.subrange(s.len() as int, s.len() as int);
    assert(e =~= Seq::<char>::empty());
    assert(text::trim_start(e) == e);
    assert(text::trim_end(e) == e);
}

/// A search that finds `c` inside `p` finds the same one in `p + l`.
proof fn lemma_next_char_prefix(p: Seq<char>, l: Seq<char>, c: char, k: int)
    requires
        0 <= k,
        next_char(p, c, k) < p.len(),
    ensures
        next_char(p + l, c, k) == next_char(p, c, k),
    decreases p.len() - k,
{
    if k < p.len() && p[k] != c {
        assert((p + l)[k] == p[k]);
        lemma_next_char_prefix(p, l, c, k + 1);
    } else {
        assert((p + l)[k] == p[k]);
    }
}

/// Searching `p + l` past `p` is searching `l`.
proof fn lemma_next_char_concat(p: Seq<char>, l: Seq<char>, c: char, j: int)
    requires
        0 <= j,
    ensures
        next_char(p + l, c, p.len() + j) == p.len() + next_char(l, c, j),
    decreases l.len() - j,
{
    if j < l.len() {
        assert((p + l)[p.len() + j] == l[j]);
        if l[j] != c {
            lemma_next_char_concat(p, l, c, j + 1);
        }
    }
}

/// The line headers of `p + l` from past `p` are those of `l`.
proof fn lemma_lf_headers_shift(p: Seq<char>, l: Seq<char>, j: int)
    requires
        0 <= j,
    ensures
        lf_headers_from(p + l, p.len() + j) == lf_headers_from(l, j),
    decreases l.len() + 1 - j,
{
    let s = p + l;
    if j <= l.len() {
        lemma_next_char_concat(p, l, '\n', j);
        let e = next_char(l, '\n', j);
        lemma_next_char(l, '\n', j);
        assert(s.subrange(p.len() + j, p.len() + e) =~= l.subrange(j, e));
        if e < l.len() {
            lemma_lf_headers_shift(p, l, e + 1);
        }
    }
}

/// When `p` is empty or ends with a line feed, the line headers of `p + l`
/// are those of `p` followed by those of `l` (from any line start `k` of `p`).
proof fn lemma_lf_headers_prefix(p: Seq<char>, l: Seq<char>, k: int)
    requires
        p.len() == 0 || p.last() == '\n',
        0 <= k <= p.len(),
    ensures
        lf_headers_from(p + l, k) == lf_headers_from(p, k) + lf_headers(l),
    decreases p.len() - k,
{
    if k == p.len() {
        lemma_lf_headers_at_end(p);
        lemma_lf_headers_shift(p, l, 0);
        assert(lf_headers_from(p, k) + lf_headers(l) =~= lf_headers(l));
    } else {
        lemma_next_char(p, '\n', k);
        let e = next_char(p, '\n', k);
        assert(e < p.len()) by {
            if e == p.len() {
                assert(p[p.len() - 1] == '\n');
            }
        }
        lemma_next_char_prefix(p, l, '\n', k);
        assert((p + l).subrange(k, e) =~= p.subrange(k, e));
        lemma_lf_headers_prefix(p, l, e + 1);
        let first = opt_seq(header_of_input_line(p.subrange(k, e)));
        assert(first + (lf_headers_from(p, e + 1) + lf_headers(l)) =~= (first + lf_headers_from(
            p,
            e + 1,
        )) + lf_headers(l));
    }
}

/// One serialized header parses back to itself as a line.
proof fn lemma_header_text_parses_as_line(h: (Seq<char>, Seq<char>))
    requires
        line_header(h),
    ensures
        lf_headers(header_text(h)) == seq![h],
{
    reveal_strlit("\r\n");
    reveal_strlit(": ");
    let (name, value) = h;
    let l = header_text(h);
    let n = name.len() as int;
    assert(l =~= name + seq![':', ' '] + value + seq!['\r', '\n']);
    let e = l.len() - 1;
    assert forall|j: int| 0 <= j < e implies l[j] != '\n' by {
        if j < n {
            assert(l[j] == name[j]);
        } else if n + 2 <= j < n + 2 + value.len() {
            assert(l[j] == value[j - n - 2]);
        }
    }
    lemma_next_char_first(l, '\n', 0, e);
    let raw = l.subrange(0, e);
    assert(raw =~= name + seq![':', ' '] + value + seq!['\r']);
    let body = name + seq![':', ' '] + value;
    assert(raw.drop_last() =~= body);
    assert(text::trim_start(raw) == raw) by {
        assert(raw[0] == name[0]);
    }
    assert(text::is_ws('\r'));
    assert(text::trim_end(raw) == text::trim_end(body));
    let line = if value.len() > 0 {
        body
    } else {
        name + seq![':']
    };
    assert(text::trim_end(body) == line) by {
        if value.len() > 0 {
            assert(body.last() == value.last());
            assert(!text::is_ws(body.last()));
        } else {
            let nc = name + seq![':'];
            assert(body.last() == ' ');
            assert(text::is_ws(' '));
            assert(body.drop_last() =~= nc);
            assert(nc.last() == ':');
            assert(!text::is_ws(':'));
            assert(text::trim_end(nc) == nc);
            assert(text::trim_end(body) == text::trim_end(nc));
        }
    }
    assert(text::trim(raw) == line);
    assert forall|j: int| 0 <= j < n implies line[j] != ':' by {
        assert(line[j] == name[j]);
    }
    assert(line[n] == ':');
    lemma_next_char_first(line, ':', 0, n);
    assert(line.subrange(0, n) =~= name);
    let rest = line.subrange(n + 1, line.len() as int);
    if value.len() > 0 {
        assert(rest =~= seq![' '] + value);
        assert(text::is_ws(' '));
        assert(rest.drop_first() =~= value);
        assert(text::trim_start(rest) == text::trim_start(value));
        assert(text::trim_start(value) == value);
    } else {
        assert(rest =~= Seq::<char>::empty());
        assert(text::trim_start(rest) == rest);
        assert(value =~= Seq::<char>::empty());
    }
    lemma_lf_headers_at_end(l);
    assert(lf_headers(l) =~= seq![h]);
}

/// Serialize headers back to a single string with CRLF line endings.
pub fn serialize_headers(headers: &[(String, String)]) -> (s: String)
    ensures
        s@ == serialized(headers_view(headers@)),
{
    let mut s = String::new();
    let ghost hv = headers_view(headers@);
    let mut i: usize = 0;
    while i < headers.len()
        invariant
            i <= headers@.len(),
            hv == headers_view(headers@),
            s@ == serialized(hv.take(i as int)),
        decreases headers@.len() - i,
    {
        let ghost before = s@;
        s.append(headers[i].0.as_str());
        s.append(": ");
        s.append(headers[i].1.as_str());
        s.append("\r\n");
        proof {
            assert(hv.take(i + 1).drop_last() =~= hv.take(i as int));
            assert(hv.take(i + 1).last() == hv[i as int]);
        }
        i = i + 1;
    }
    assert(hv.take(headers@.len() as int) =~= hv);
    s
}

// ---------------------------------------------------------------------------
// Default headers and request serialisation
// ---------------------------------------------------------------------------

/// Whether some header's name, ASCII lower-cased, is `lname`.
pub open spec fn has_header(h: Seq<(Seq<char>, Seq<char>)>, lname: Seq<char>) -> bool {
    exists|i: int| 0 <= i < h.len() && ascii_lower_eq(h[i].0, lname)
}

pub open spec fn ascii_lower_eq(name: Seq<char>, lname: Seq<char>) -> bool {
    text::ascii_lower(name) == lname
}

/// `h` followed by `Content-Length` (the body length), `Host` and
/// `Connection: close`, each only when no header of that name is present.
pub open spec fn with_default_headers(
    h: Seq<(Seq<char>, Seq<char>)>,
    body_len: nat,
    host: Seq<char>,
) -> Seq<(Seq<char>, Seq<char>)> {
    h + (if has_header(h, "content-length"@) {
        seq![]
    } else {
        seq![("Content-Length"@, text::decimal(body_len))]
    }) + (if has_header(h, "host"@) {
        seq![]
    } else {
        seq![("Host"@, host)]
    }) + (if has_header(h, "connection"@) {
        seq![]
    } else {
        seq![("Connection"@, "close"@)]
    })
}

/// Add default headers to a header list if they are missing.
///
/// This function ensures that Content-Length, Host, and Connection headers
/// are present with sensible defaults.
pub fn add_default_headers(headers: &mut Vec<(String, String)>, body: &[u8], host: &str)
    ensures
        headers_view(final(headers)@) == with_default_headers(
            headers_view(old(headers)@),
            body@.len(),
            host@,
        ),
{
    let ghost hv = headers_view(headers@);
    let cl = chars_of("content-length");
    let ho = chars_of("host");
    let co = chars_of("connection");
    let mut has_content_length = false;
    let mut has_host = false;
    let mut has_connection = false;
    let mut i: usize = 0;
    while i < headers.len()
        invariant
            i <= headers@.len(),
            hv == headers_view(headers@),
            cl@ == "content-length"@,
            ho@ == "host"@,
            co@ == "connection"@,
            has_content_length == exists|j: int| 0 <= j < i && ascii_lower_eq(hv[j].0, "content-length"@),
            has_host == exists|j: int| 0 <= j < i && ascii_lower_eq(hv[j].0, "host"@),
            has_connection == exists|j: int| 0 <= j < i && ascii_lower_eq(hv[j].0, "connection"@),
        decreases headers@.len() - i,
    {
        let nv = chars_of(headers[i].0.as_str());
        let n = lower_range(&nv, 0, nv.len());
        proof {
            reveal_strlit("content-length");
            reveal_strlit("host");
            reveal_strlit("connection");
            assert(nv@.subrange(0, nv@.len() as int) =~= nv@);
            assert(hv[i as int].0 == nv@);
        }
        proof {
            assert("content-length"@.len() == 14);
            assert("host"@.len() == 4);
            assert("connection"@.len() == 10);
            assert(n@ == text::ascii_lower(hv[i as int].0));
        }
        if chars_eq(&n, &cl) {
            has_content_length = true;
            assert(ascii_lower_eq(hv[i as int].0, "content-length"@));
        } else if chars_eq(&n, &ho) {
            has_host = true;
            assert(ascii_lower_eq(hv[i as int].0, "host"@));
        } else if chars_eq(&n, &co) {
            has_connection = true;
            assert(ascii_lower_eq(hv[i as int].0, "connection"@));
        }
        i = i + 1;
    }
    let ghost base = headers_view(headers@);
    if !has_content_length {
        headers.push((owned("Content-Length"), text::decimal_string(body.len() as u64)));
    }
    let ghost after_cl = headers_view(headers@);
    if !has_host {
        headers.push((owned("Host"), owned(host)));
    }
    let ghost after_host = headers_view(headers@);
    if !has_connection {
        headers.push((owned("Connection"), owned("close")));
    }
    proof {
        assert(after_cl =~= base + (if has_header(hv, "content-length"@) {
            seq![]
        } else {
            seq![("Content-Length"@, text::decimal(body@.len()))]
        }));
        assert(after_host =~= after_cl + (if has_header(hv, "host"@) {
            seq![]
        } else {
            seq![("Host"@, host@)]
        }));
        assert(headers_view(headers@) =~= after_host + (if has_header(hv, "connection"@) {
            seq![]
        } else {
            seq![("Connection"@, "close"@)]
        }));
    }
}

/// The text of a request before its body: request line, header lines, blank line.
pub open spec fn request_head_text(
    method: Seq<char>,
    path: Seq<char>,
    h: Seq<(Seq<char>, Seq<char>)>,
) -> Seq<char> {
    method + " "@ + path + " HTTP/1.1\r\n"@ + serialized(h) + "\r\n"@
}

/// The bytes of a request: its head (with default headers for `host` added)
/// in UTF-8, followed by the body.
pub open spec fn request_bytes(
    method: Seq<char>,
    path: Seq<char>,
    h: Seq<(Seq<char>, Seq<char>)>,
    body: Seq<u8>,
    host: Seq<char>,
) -> Seq<u8> {
    encode_utf8(request_head_text(method, path, with_default_headers(h, body.len(), host)))
        + body
}

/// Appends all of `b` to `v`.
pub fn extend_bytes(v: &mut Vec<u8>, b: &[u8])
    ensures
        final(v)@ == old(v)@ + b@,
{
    let ghost start = v@;
    let mut i: usize = 0;
    while i < b.len()
        invariant
            i <= b@.len(),
            v@ == start + b@.subrange(0, i as int),
        decreases b@.len() - i,
    {
        v.push(b[i]);
        assert(b@.subrange(0, i + 1) =~= b@.subrange(0, i as int).push(b@[i as int]));
        i = i + 1;
    }
    assert(b@.subrange(0, b@.len() as int) =~= b@);
}

/// Serialises a request for `host`, adding the default headers it lacks.
pub fn build_request_for_host(
    method: &str,
    path: &str,
    headers: Vec<(String, String)>,
    body: &[u8],
    host: &str,
) -> (req: Vec<u8>)
    ensures
        req@ == request_bytes(method@, path@, headers_view(headers@), body@, host@),
{
    let mut headers = headers;
    add_default_headers(&mut headers, body, host);
    let mut text = owned(method);
    text.append(" ");
    text.append(path);
    text.append(" HTTP/1.1\r\n");
    let hs = serialize_headers(headers.as_slice());
    text.append(hs.as_str());
    text.append("\r\n");
    let bytes = text.as_str().as_bytes();
    let mut req = vstd::slice::slice_to_vec(bytes);
    extend_bytes(&mut req, body);
    req
}

/// Build an HTTP request from method, path, headers, and body.
pub fn build_request(method: &str, path: &str, headers: Vec<(String, String)>, body: &[u8]) -> (req:
    Vec<u8>)
    ensures
        req@ == request_bytes(method@, path@, headers_view(headers@), body@, "localhost"@),
{
    build_request_for_host(method, path, headers, body, "localhost")
}

/// Whether `b[i..i+4]` is `\r\n\r\n`.
pub open spec fn blank_line_at(b: Seq<u8>, i: int) -> bool {
    0 <= i && i + 3 < b.len() && b[i] == 13 && b[i + 1] == 10 && b[i + 2] == 13 && b[i + 3] == 10
}

/// Position of the first `\r\n\r\n` at or after `k`.
pub open spec fn blank_line_from(b: Seq<u8>, k: int) -> Option<int>
    decreases b.len() - k,
{
    if k < 0 || k + 3 >= b.len() {
        None
    } else if blank_line_at(b, k) {
        Some(k)
    } else {
        blank_line_from(b, k + 1)
    }
}

/// The end of the header section: the position just after the first `\r\n\r\n`.
pub open spec fn header_end(b: Seq<u8>) -> Option<int> {
    match blank_line_from(b, 0) {
        Some(i) => Some(i + 4),
        None => None,
    }
}

pub proof fn lemma_blank_line_from(b: Seq<u8>, k: int)
    requires
        0 <= k,
    ensures
        match blank_line_from(b, k) {
            Some(i) => k <= i && blank_line_at(b, i) && forall|j: int| k <= j < i ==> !blank_line_at(b, j),
            None => forall|j: int| k <= j ==> !blank_line_at(b, j),
        },
    decreases b.len() - k,
{
    if k + 3 < b.len() && !blank_line_at(b, k) {
        lemma_blank_line_from(b, k + 1);
    }
}

/// Find the position of "\r\n\r\n" in a buffer.
pub fn memchr_crlf_crlf(buf: &[u8]) -> (r: Option<usize>)
    ensures
        match r {
            Some(p) => header_end(buf@) == Some(p as int),
            None => header_end(buf@) is None,
        },
{
    // Return index of end of header (position just after \r\n\r\n)
    if buf.len() < 4 {
        return None;
    }
    let mut i: usize = 0;
    while i <= buf.len() - 4
        invariant
            buf@.len() >= 4,
            i <= buf@.len() - 3,
            blank_line_from(buf@, i as int) == blank_line_from(buf@, 0),
        decreases buf@.len() - i,
    {
        if buf[i] == 13 && buf[i + 1] == 10 && buf[i + 2] == 13 && buf[i + 3] == 10 {
            return Some(i + 4);
        }
        i = i + 1;
    }
    None
}

/// Once the defaults are in, adding them again changes nothing.
pub proof fn lemma_default_headers_idempotent(
    h: Seq<(Seq<char>, Seq<char>)>,
    body_len: nat,
    host1: Seq<char>,
    host2: Seq<char>,
)
    ensures
        with_default_headers(with_default_headers(h, body_len, host1), body_len, host2)
            == with_default_headers(h, body_len, host1),
{
    let d = with_default_headers(h, body_len, host1);
    reveal_strlit("content-length");
    reveal_strlit("Content-Length");
    reveal_strlit("host");
    reveal_strlit("Host");
    reveal_strlit("connection");
    reveal_strlit("Connection");
    assert(text::ascii_lower("Content-Length"@) =~= "content-length"@);
    assert(text::ascii_lower("Host"@) =~= "host"@);
    assert(text::ascii_lower("Connection"@) =~= "connection"@);
    let a = if has_header(h, "content-length"@) {
        seq![]
    } else {
        seq![("Content-Length"@, text::decimal(body_len))]
    };
    let b = if has_header(h, "host"@) {
        seq![]
    } else {
        seq![("Host"@, host1)]
    };
    let c = if has_header(h, "connection"@) {
        seq![]
    } else {
        seq![("Connection"@, "close"@)]
    };
    assert(d == h + a + b + c);
    assert(has_header(d, "content-length"@)) by {
        if has_header(h, "content-length"@) {
            let i = choose|i: int| 0 <= i < h.len() && ascii_lower_eq(h[i].0, "content-length"@);
            assert(d[i] == h[i]);
        } else {
            assert(d[h.len() as int] == ("Content-Length"@, text::decimal(body_len)));
        }
    }
    assert(has_header(d, "host"@)) by {
        if has_header(h, "host"@) {
            let i = choose|i: int| 0 <= i < h.len() && ascii_lower_eq(h[i].0, "host"@);
            assert(d[i] == h[i]);
        } else {
            assert(d[(h.len() + a.len()) as int] == ("Host"@, host1));
        }
    }
    assert(has_header(d, "connection"@)) by {
        if has_header(h, "connection"@) {
            let i = choose|i: int| 0 <= i < h.len() && ascii_lower_eq(h[i].0, "connection"@);
            assert(d[i] == h[i]);
        } else {
            assert(d[(h.len() + a.len() + b.len()) as int] == ("Connection"@, "close"@));
        }
    }
    assert(with_default_headers(d, body_len, host2) =~= d);
}

/// After `add_default_headers`, each of the three headers is present.
pub proof fn lemma_defaults_present(h: Seq<(Seq<char>, Seq<char>)>, body_len: nat, host: Seq<char>)
    ensures
        has_header(with_default_headers(h, body_len, host), "content-length"@),
        has_header(with_default_headers(h, body_len, host), "host"@),
        has_header(with_default_headers(h, body_len, host), "connection"@),
        with_default_headers(h, body_len, host).subrange(0, h.len() as int) == h,
{
    lemma_default_headers_idempotent(h, body_len, host, host);
    let d = with_default_headers(h, body_len, host);
    assert(d.subrange(0, h.len() as int) =~= h);
    if !has_header(d, "content-length"@) {
        assert(with_default_headers(d, body_len, host).len() > d.len());
    }
    if !has_header(d, "host"@) {
        assert(with_default_headers(d, body_len, host).len() > d.len());
    }
    if !has_header(d, "connection"@) {
        assert(with_default_headers(d, body_len, host).len() > d.len());
    }
}

// ---------------------------------------------------------------------------
// The head of a response
// ---------------------------------------------------------------------------

/// Status code and headers of a response head (the bytes up to and including
/// the blank line): UTF-8 text whose first CRLF-terminated line is the
/// status line and whose remaining lines are headers.
pub open spec fn response_head(head: Seq<u8>) -> Result<(u16, Seq<(Seq<char>, Seq<char>)>), Seq<char>> {
    if !vstd::utf8::valid_utf8(head) {
        Err("invalid utf-8 in headers"@)
    } else {
        let t = vstd::utf8::decode_utf8(head);
        let e = next_crlf(t, 0);
        let rest = if e < t.len() {
            t.subrange(e + 2, t.len() as int)
        } else {
            seq![]
        };
        match status_line_result(t.subrange(0, e)) {
            Err(m) => Err(m),
            Ok(code) => Ok((code, crlf_headers(rest))),
        }
    }
}

/// Parses a response head: the status code and the headers.
pub fn parse_response_head(head: &[u8]) -> (r: Result<(u16, Vec<(String, String)>), String>)
    ensures
        match r {
            Ok((code, h)) => response_head(head@) == Ok::<(u16, Seq<(Seq<char>, Seq<char>)>), Seq<char>>((code, headers_view(h@))),
            Err(e) => response_head(head@) == Err::<(u16, Seq<(Seq<char>, Seq<char>)>), Seq<char>>(e@),
        },
{
    let text = match text::utf8_decode(head) {
        Some(t) => t,
        None => {
            return Err(owned("invalid utf-8 in headers"));
        },
    };
    let v = chars_of(text);
    let e = next_crlf_exec(&v, 0);
    let status_line = string_from_range(&v, 0, e);
    proof {
        lemma_next_crlf(v@, 0);
    }
    let rest = if e < v.len() {
        string_from_range(&v, e + 2, v.len())
    } else {
        String::new()
    };
    proof {
        lemma_next_crlf(v@, 0);
    }
    match parse_status_line(status_line.as_str()) {
        Err(m) => Err(m),
        Ok(code) => {
            let h = parse_headers(rest.as_str());
            Ok((code, h))
        },
    }
}

} // verus!
