//! What a server writes is what the client reads: a response written as
//! status line, header lines, blank line and a body (sized by
//! `Content-Length`, in the chunked coding, or running to the end of the
//! stream) is read back as the same status, headers and body.
use vstd::prelude::*;
use crate::http;
use crate::stream;
use crate::text;

verus! {

broadcast use vstd::utf8::group_utf8_lib;

/// `HTTP/1.1 <code> <reason>`.
pub open spec fn status_line_text(code: u16, reason: Seq<char>) -> Seq<char> {
    "HTTP/1.1 "@ + text::decimal(code as nat) + " "@ + reason
}

/// The header section: the status line, the header lines, a blank line.
pub open spec fn head_text(code: u16, reason: Seq<char>, h: Seq<(Seq<char>, Seq<char>)>) -> Seq<
    char,
> {
    status_line_text(code, reason) + "\r\n"@ + http::serialized(h) + "\r\n"@
}

/// A response as a server writes it: the header section, then the body.
pub open spec fn response_bytes(
    code: u16,
    reason: Seq<char>,
    h: Seq<(Seq<char>, Seq<char>)>,
    body: Seq<u8>,
) -> Seq<u8> {
    vstd::utf8::encode_utf8(head_text(code, reason, h)) + body
}

/// Every `\r\n` ends a line that is not followed by an empty line: no
/// `\r\n` comes right after another.
pub open spec fn crlf_lines(s: Seq<char>) -> bool {
    forall|j: int| #[trigger] http::crlf_at(s, j) ==> !http::crlf_at(s, j + 2)
}

pub open spec fn ends_in_crlf(s: Seq<char>) -> bool {
    s.len() >= 2 && s[s.len() - 2] == '\r' && s[s.len() - 1] == '\n'
}

proof fn lemma_lines_concat(a: Seq<char>, b: Seq<char>)
    requires
        crlf_lines(a),
        crlf_lines(b),
        a.len() == 0 || ends_in_crlf(a),
        !http::crlf_at(b, 0),
    ensures
        crlf_lines(a + b),
{
    let s = a + b;
    let n = a.len() as int;
    assert forall|j: int| #[trigger] http::crlf_at(s, j) implies !http::crlf_at(s, j + 2) by {
        if j + 1 < n {
            assert(http::crlf_at(a, j));
            if j + 3 < n {
                assert(!http::crlf_at(a, j + 2));
            } else if j + 2 == n - 1 {
                assert(s[j + 2] == a[n - 1]);
            } else {
                assert(j + 2 == n);
                if http::crlf_at(s, j + 2) {
                    assert(s[j + 2] == b[0] && s[j + 3] == b[1]);
                    assert(http::crlf_at(b, 0));
                }
            }
        } else if j + 1 == n {
            assert(s[j] == a[n - 1]);
        } else {
            assert(s[j] == b[j - n] && s[j + 1] == b[j - n + 1]);
            assert(http::crlf_at(b, j - n));
            if http::crlf_at(s, j + 2) {
                assert(s[j + 2] == b[j - n + 2] && s[j + 3] == b[j - n + 3]);
                assert(http::crlf_at(b, j - n + 2));
            }
        }
    }
}

/// A line without `\r\n`, closed by `\r\n`.
proof fn lemma_line(line: Seq<char>)
    requires
        http::no_crlf(line),
    ensures
        crlf_lines(line + "\r\n"@),
        ends_in_crlf(line + "\r\n"@),
{
    reveal_strlit("\r\n");
    let s = line + "\r\n"@;
    let n = line.len() as int;
    assert forall|j: int| #[trigger] http::crlf_at(s, j) implies !http::crlf_at(s, j + 2) by {
        if j + 1 < n {
            assert(s[j] == line[j] && s[j + 1] == line[j + 1]);
            assert(http::crlf_at(line, j));
        } else if j + 1 == n {
            assert(s[j + 1] == '\r');
        }
    }
}

proof fn lemma_serialized_lines(h: Seq<(Seq<char>, Seq<char>)>)
    requires
        forall|i: int| 0 <= i < h.len() ==> http::plain_header(#[trigger] h[i]),
    ensures
        crlf_lines(http::serialized(h)),
        !http::crlf_at(http::serialized(h), 0),
        http::serialized(h).len() == 0 || ends_in_crlf(http::serialized(h)),
    decreases h.len(),
{
    reveal_strlit("\r\n");
    reveal_strlit(": ");
    if h.len() > 0 {
        let p = h.drop_last();
        assert(forall|i: int| 0 <= i < p.len() ==> p[i] == h[i]);
        lemma_serialized_lines(p);
        let (name, value) = h.last();
        assert(http::plain_header(h[h.len() - 1]));
        let line = name + ": "@ + value;
        let nl = name.len() as int;
        assert(http::no_crlf(line)) by {
            assert forall|j: int| !#[trigger] http::crlf_at(line, j) by {
                if http::crlf_at(line, j) {
                    if j + 1 < nl {
                        assert(line[j] == name[j] && line[j + 1] == name[j + 1]);
                        assert(http::crlf_at(name, j));
                    } else if j + 1 == nl {
                        assert(line[j + 1] == ':');
                    } else if j < nl + 2 {
                    } else {
                        assert(line[j] == value[j - nl - 2] && line[j + 1] == value[j - nl - 1]);
                        assert(http::crlf_at(value, j - nl - 2));
                    }
                }
            }
        }
        lemma_line(line);
        let l = line + "\r\n"@;
        assert(http::serialized(h) =~= http::serialized(p) + l);
        assert(!http::crlf_at(l, 0)) by {
            if nl >= 2 {
                assert(l[0] == name[0] && l[1] == name[1]);
                assert(!http::crlf_at(name, 0));
            } else if nl == 1 {
                assert(l[1] == ':');
            } else {
                assert(l[0] == ':');
            }
        }
        lemma_lines_concat(http::serialized(p), l);
        let s = http::serialized(h);
        if http::serialized(p).len() >= 2 {
            assert(s[0] == http::serialized(p)[0] && s[1] == http::serialized(p)[1]);
        } else {
            assert(http::serialized(p).len() == 0);
            assert(s =~= l);
        }
    }
}

/// A status line holds no `\r\n` when its reason holds none.
proof fn lemma_status_no_crlf(code: u16, reason: Seq<char>)
    requires
        http::no_crlf(reason),
    ensures
        http::no_crlf(status_line_text(code, reason)),
{
    reveal_strlit("HTTP/1.1 ");
    reveal_strlit(" ");
    let l0 = status_line_text(code, reason);
    let d = text::decimal(code as nat);
    let k: int = 10 + d.len() as int;
    text::lemma_decimal_digits(code as nat);
    assert forall|j: int| !#[trigger] http::crlf_at(l0, j) by {
        if http::crlf_at(l0, j) {
            if j < 9 {
            } else if j < 9 + d.len() {
                assert(l0[j] == d[j - 9]);
                assert(text::digit_value(d[j - 9], 10) is Some);
            } else if j == 9 + d.len() {
            } else {
                assert(l0[j] == reason[j - k] && l0[j + 1] == reason[j - k + 1]);
                assert(http::crlf_at(reason, j - k));
            }
        }
    }
}

/// The characters of a header section: no blank line before its end.
proof fn lemma_head_lines(code: u16, reason: Seq<char>, h: Seq<(Seq<char>, Seq<char>)>)
    requires
        http::no_crlf(reason),
        forall|i: int| 0 <= i < h.len() ==> http::plain_header(#[trigger] h[i]),
    ensures
        ({
            let t = head_text(code, reason, h);
            let b = status_line_text(code, reason) + "\r\n"@ + http::serialized(h);
            &&& t == b + "\r\n"@
            &&& crlf_lines(b)
            &&& ends_in_crlf(b)
        }),
{
    reveal_strlit("\r\n");
    reveal_strlit("HTTP/1.1 ");
    reveal_strlit(" ");
    let l0 = status_line_text(code, reason);
    lemma_status_no_crlf(code, reason);
    lemma_line(l0);
    lemma_serialized_lines(h);
    let s = http::serialized(h);
    lemma_lines_concat(l0 + "\r\n"@, s);
    let b = l0 + "\r\n"@ + s;
    if s.len() > 0 {
        assert(b[b.len() - 2] == s[s.len() - 2]);
        assert(b[b.len() - 1] == s[s.len() - 1]);
    } else {
        assert(b =~= l0 + "\r\n"@);
    }
}

/// A carriage return byte followed by a line feed byte.
pub open spec fn byte_crlf_at(b: Seq<u8>, i: int) -> bool {
    0 <= i && i + 1 < b.len() && b[i] == 13u8 && b[i + 1] == 10u8
}

/// No `\r\n` byte pair comes right after another.
pub open spec fn byte_crlf_lines(b: Seq<u8>) -> bool {
    forall|j: int| #[trigger] byte_crlf_at(b, j) ==> !byte_crlf_at(b, j + 2)
}

/// The encoding of a character is never empty; it holds a carriage return
/// byte only when the character is one, and a line feed byte only when the
/// character is one.
proof fn lemma_scalar_bytes(c: char)
    ensures
        vstd::utf8::encode_scalar(c as u32).len() > 0,
        c == '\r' ==> vstd::utf8::encode_scalar(c as u32) == seq![13u8],
        c == '\n' ==> vstd::utf8::encode_scalar(c as u32) == seq![10u8],
        c != '\r' ==> forall|i: int|
            0 <= i < vstd::utf8::encode_scalar(c as u32).len() ==> #[trigger] vstd::utf8::encode_scalar(
                c as u32,
            )[i] != 13u8,
        c != '\n' ==> forall|i: int|
            0 <= i < vstd::utf8::encode_scalar(c as u32).len() ==> #[trigger] vstd::utf8::encode_scalar(
                c as u32,
            )[i] != 10u8,
{
    let v = c as u32;
    if vstd::utf8::has_width_1_encoding(v) {
        assert(vstd::utf8::leading_byte_width_1(v) == v) by (bit_vector)
            requires
                v <= 0x7f,
        ;
    } else {
        assert(vstd::utf8::leading_byte_width_2(v) >= 0x80) by (bit_vector);
        assert(vstd::utf8::leading_byte_width_3(v) >= 0x80) by (bit_vector);
        assert(vstd::utf8::leading_byte_width_4(v) >= 0x80) by (bit_vector);
        assert(vstd::utf8::last_continuation_byte(v) >= 0x80) by (bit_vector);
        assert(vstd::utf8::second_last_continuation_byte(v) >= 0x80) by (bit_vector);
        assert(vstd::utf8::third_last_continuation_byte(v) >= 0x80) by (bit_vector);
    }
}

proof fn lemma_encode_concat(x: Seq<char>, y: Seq<char>)
    ensures
        vstd::utf8::encode_utf8(x + y) == vstd::utf8::encode_utf8(x) + vstd::utf8::encode_utf8(y),
    decreases x.len(),
{
    if x.len() == 0 {
        assert(x + y =~= y);
        assert(Seq::<u8>::empty() + vstd::utf8::encode_utf8(y) =~= vstd::utf8::encode_utf8(y));
    } else {
        assert((x + y).drop_first() =~= x.drop_first() + y);
        assert((x + y)[0] == x[0]);
        lemma_encode_concat(x.drop_first(), y);
        let e0 = vstd::utf8::encode_scalar(x[0] as u32);
        assert(e0 + (vstd::utf8::encode_utf8(x.drop_first()) + vstd::utf8::encode_utf8(y)) =~= e0
            + vstd::utf8::encode_utf8(x.drop_first()) + vstd::utf8::encode_utf8(y));
    }
}

/// Encoded text starts with a `\r\n` byte pair only when the text starts
/// with `\r\n`.
proof fn lemma_encode_first(s: Seq<char>)
    ensures
        byte_crlf_at(vstd::utf8::encode_utf8(s), 0) ==> http::crlf_at(s, 0),
{
    let e = vstd::utf8::encode_utf8(s);
    if byte_crlf_at(e, 0) {
        assert(s.len() > 0);
        let t = s.drop_first();
        let e0 = vstd::utf8::encode_scalar(s[0] as u32);
        let et = vstd::utf8::encode_utf8(t);
        assert(e == e0 + et);
        lemma_scalar_bytes(s[0]);
        assert(e0[0] == 13u8);
        assert(s[0] == '\r');
        assert(et.len() > 0);
        assert(t.len() > 0);
        assert(et[0] == 10u8);
        lemma_scalar_bytes(t[0]);
        assert(et == vstd::utf8::encode_scalar(t[0] as u32) + vstd::utf8::encode_utf8(t.drop_first()));
        assert(vstd::utf8::encode_scalar(t[0] as u32)[0] == 10u8);
        assert(t[0] == '\n');
        assert(s[1] == t[0]);
    }
}

/// Encoding keeps the line structure: no `\r\n` byte pair follows another
/// when no `\r\n` follows another in the text.
proof fn lemma_encode_lines(s: Seq<char>)
    requires
        crlf_lines(s),
    ensures
        byte_crlf_lines(vstd::utf8::encode_utf8(s)),
    decreases s.len(),
{
    if s.len() > 0 {
        let t = s.drop_first();
        assert(crlf_lines(t)) by {
            assert forall|j: int| #[trigger] http::crlf_at(t, j) implies !http::crlf_at(t, j + 2) by {
                assert(s[j + 1] == t[j] && s[j + 2] == t[j + 1]);
                assert(http::crlf_at(s, j + 1));
                if http::crlf_at(t, j + 2) {
                    assert(s[j + 3] == t[j + 2] && s[j + 4] == t[j + 3]);
                    assert(http::crlf_at(s, j + 3));
                }
            }
        }
        lemma_encode_lines(t);
        lemma_scalar_bytes(s[0]);
        let e0 = vstd::utf8::encode_scalar(s[0] as u32);
        let et = vstd::utf8::encode_utf8(t);
        let e = vstd::utf8::encode_utf8(s);
        let m = e0.len() as int;
        assert(e == e0 + et);
        assert forall|j: int| #[trigger] byte_crlf_at(e, j) implies !byte_crlf_at(e, j + 2) by {
            if j < m {
                assert(e0[j] == 13u8);
                assert(s[0] == '\r');
                assert(j == 0);
                lemma_encode_first(s);
                assert(http::crlf_at(s, 0));
                assert(!http::crlf_at(s, 2));
                let u = s.skip(2);
                assert(s =~= seq![s[0], s[1]] + u);
                lemma_encode_concat(seq![s[0], s[1]], u);
                lemma_encode_crlf();
                assert(seq![s[0], s[1]] =~= "\r\n"@) by {
                    reveal_strlit("\r\n");
                }
                let eu = vstd::utf8::encode_utf8(u);
                assert(e =~= seq![13u8, 10u8] + eu);
                lemma_encode_first(u);
                if byte_crlf_at(e, 2) {
                    assert(e[2] == eu[0] && e[3] == eu[1]);
                    assert(byte_crlf_at(eu, 0));
                    assert(u[0] == s[2] && u[1] == s[3]);
                }
            } else {
                assert(e[j] == et[j - m] && e[j + 1] == et[j - m + 1]);
                assert(byte_crlf_at(et, j - m));
                if byte_crlf_at(e, j + 2) {
                    assert(e[j + 2] == et[j - m + 2] && e[j + 3] == et[j - m + 3]);
                    assert(byte_crlf_at(et, j - m + 2));
                }
            }
        }
    }
}

proof fn lemma_encode_crlf()
    ensures
        vstd::utf8::encode_utf8("\r\n"@) == seq![13u8, 10u8],
{
    reveal_strlit("\r\n");
    let c = "\r\n"@;
    lemma_scalar_bytes('\r');
    lemma_scalar_bytes('\n');
    assert(c.drop_first() =~= seq!['\n']);
    assert(c.drop_first().drop_first() =~= Seq::<char>::empty());
    let nl = seq!['\n'];
    assert(nl[0] == '\n');
    assert(nl.drop_first() =~= Seq::<char>::empty());
    assert(vstd::utf8::encode_utf8(Seq::<char>::empty()) =~= Seq::<u8>::empty());
    assert(vstd::utf8::encode_utf8(nl) == vstd::utf8::encode_scalar('\n' as u32)
        + vstd::utf8::encode_utf8(nl.drop_first()));
    assert(vstd::utf8::encode_utf8(nl) =~= seq![10u8]);
    assert(c[0] == '\r');
    assert(vstd::utf8::encode_utf8(c) == vstd::utf8::encode_scalar('\r' as u32)
        + vstd::utf8::encode_utf8(c.drop_first()));
}

/// In the bytes of a response, the header section ends at the first blank
/// line, which closes the encoded header text; a prefix shorter than that
/// holds no blank line.
proof fn lemma_head_end_bytes(
    code: u16,
    reason: Seq<char>,
    h: Seq<(Seq<char>, Seq<char>)>,
    body: Seq<u8>,
    q: int,
)
    requires
        http::no_crlf(reason),
        forall|i: int| 0 <= i < h.len() ==> http::plain_header(#[trigger] h[i]),
        0 <= q <= response_bytes(code, reason, h, body).len(),
    ensures
        ({
            let n = vstd::utf8::encode_utf8(head_text(code, reason, h)).len() as int;
            let input = response_bytes(code, reason, h, body);
            &&& n >= 4
            &&& http::header_end(input.take(q)) == (if q >= n {
                Some(n)
            } else {
                None::<int>
            })
        }),
{
    reveal_strlit("\r\n");
    let t = head_text(code, reason, h);
    lemma_head_lines(code, reason, h);
    let b = status_line_text(code, reason) + "\r\n"@ + http::serialized(h);
    let crlf = "\r\n"@;
    lemma_encode_crlf();
    lemma_encode_concat(b, crlf);
    let eb = vstd::utf8::encode_utf8(b);
    let hb = vstd::utf8::encode_utf8(t);
    assert(hb == eb + seq![13u8, 10u8]);
    lemma_encode_lines(b);
    let b0 = b.subrange(0, b.len() - 2);
    assert(b =~= b0 + crlf);
    lemma_encode_concat(b0, crlf);
    assert(eb == vstd::utf8::encode_utf8(b0) + seq![13u8, 10u8]);
    let n = hb.len() as int;
    let m = eb.len() as int;
    assert(n == m + 2);
    assert(m >= 2);
    assert(eb[m - 2] == 13u8 && eb[m - 1] == 10u8);
    let input = response_bytes(code, reason, h, body);
    assert(input == hb + body);
    assert forall|j: int| 0 <= j && j + 3 < n && #[trigger] http::blank_line_at(input, j)
        implies j == n - 4 by {
        assert(input[j] == hb[j] && input[j + 1] == hb[j + 1]);
        assert(input[j + 2] == hb[j + 2] && input[j + 3] == hb[j + 3]);
        if j + 3 < m {
            assert(eb[j] == hb[j] && eb[j + 1] == hb[j + 1]);
            assert(eb[j + 2] == hb[j + 2] && eb[j + 3] == hb[j + 3]);
            assert(byte_crlf_at(eb, j));
            assert(byte_crlf_at(eb, j + 2));
        } else if j + 3 == m {
            assert(hb[j + 2] == eb[m - 1]);
        }
    }
    assert(http::blank_line_at(input, n - 4)) by {
        assert(input[n - 4] == eb[m - 2]);
        assert(input[n - 3] == eb[m - 1]);
        assert(input[n - 2] == hb[n - 2]);
        assert(input[n - 1] == hb[n - 1]);
    }
    let p = input.take(q);
    http::lemma_blank_line_from(p, 0);
    assert forall|j: int| 0 <= j && #[trigger] http::blank_line_at(p, j) implies j + 3 < q
        && http::blank_line_at(input, j) by {
    }
    if q >= n {
        assert(http::blank_line_at(p, n - 4));
    }
}

/// The collector's state before reading past the first `p` bytes.
pub open spec fn pending_after(input: Seq<u8>, p: int) -> stream::HeaderModel {
    stream::HeaderModel {
        stage: stream::ScanStage::Pending,
        buf: input.take(p),
        end: 0,
        error: seq![],
    }
}

/// Collecting the header section of `input`, whose prefixes end their header
/// section exactly from length `n` on, stops after the read that completes
/// it; no more is read.
proof fn lemma_collect_head(input: Seq<u8>, n: int, p: int)
    requires
        4 <= n <= input.len(),
        n <= stream::MAX_HEADER_BYTES,
        0 <= p < n,
        p % 1024 == 0,
        forall|q: int|
            0 <= q <= input.len() ==> #[trigger] http::header_end(input.take(q)) == (if q >= n {
                Some(n)
            } else {
                None::<int>
            }),
    ensures
        ({
            let m = pending_after(input, p);
            let r = stream::header_run(m, input.skip(p));
            let k = r.buf.len() as int;
            &&& r.stage == stream::ScanStage::Complete
            &&& r.end == n
            &&& n <= k <= input.len()
            &&& r.buf == input.take(k)
            &&& stream::header_run_rest(m, input.skip(p)) == input.skip(k)
        }),
    decreases input.len() - p,
{
    let m = pending_after(input, p);
    let rem = input.skip(p);
    let c: int = if rem.len() < 1024 {
        rem.len() as int
    } else {
        1024
    };
    assert(p + 1024 <= stream::MAX_HEADER_BYTES) by (nonlinear_arith)
        requires
            p % 1024 == 0,
            0 <= p < n,
            n <= 1048576,
    ;
    let chunk = rem.take(c);
    assert(input.take(p) + chunk =~= input.take(p + c));
    assert(rem.skip(c) =~= input.skip(p + c));
    let m2 = stream::header_on_chunk(m, chunk);
    assert(http::header_end(input.take(p + c)) == (if p + c >= n {
        Some(n)
    } else {
        None::<int>
    }));
    if p + c >= n {
        assert(m2.stage == stream::ScanStage::Complete);
        assert(stream::header_run(m2, rem.skip(c)) == m2);
        assert(stream::header_run_rest(m2, rem.skip(c)) == rem.skip(c));
        assert(m2.buf.len() == p + c);
    } else {
        assert(c == 1024);
        assert(m2 == pending_after(input, p + 1024));
        assert((p + 1024) % 1024 == 0);
        lemma_collect_head(input, n, p + 1024);
    }
}

proof fn lemma_token_end_run(s: Seq<char>, lo: int, e: int, hi: int)
    requires
        0 <= lo <= e <= hi <= s.len(),
        forall|i: int| lo <= i < e ==> !text::is_ws(#[trigger] s[i]),
        e == hi || text::is_ws(s[e]),
    ensures
        http::token_end(s, lo, hi) == e,
    decreases e - lo,
{
    if lo < e {
        lemma_token_end_run(s, lo + 1, e, hi);
    }
}

/// The status line a server writes parses to its code.
proof fn lemma_status_line_parses(code: u16, reason: Seq<char>)
    ensures
        http::status_line_result(status_line_text(code, reason)) == Ok::<u16, Seq<char>>(code),
{
    reveal_strlit("HTTP/1.1 ");
    reveal_strlit(" ");
    let l0 = status_line_text(code, reason);
    let d = text::decimal(code as nat);
    text::lemma_decimal_digits(code as nat);
    text::lemma_decimal_parses(code as nat, 65535);
    let n = l0.len() as int;
    let e: int = 9 + d.len() as int;
    assert(!text::is_ws(l0[0]));
    assert(text::skip_ws(l0, 0, n) == 0);
    assert forall|i: int| 0 <= i < 8 implies !text::is_ws(#[trigger] l0[i]) by {}
    assert(text::is_ws(l0[8]));
    lemma_token_end_run(l0, 0, 8, n);
    assert(l0[9] == d[0]);
    assert(!text::is_ws(l0[9])) by {
        assert(text::digit_value(d[0], 10) is Some);
    }
    assert(text::skip_ws(l0, 9, n) == 9);
    assert(text::skip_ws(l0, 8, n) == 9);
    assert forall|i: int| 9 <= i < e implies !text::is_ws(#[trigger] l0[i]) by {
        assert(l0[i] == d[i - 9]);
        assert(text::digit_value(d[i - 9], 10) is Some);
    }
    assert(l0[e] == ' ');
    lemma_token_end_run(l0, 9, e, n);
    assert(l0.subrange(0, 5) =~= http::http_prefix());
    assert(l0.subrange(9, e) =~= d);
}

/// The header section a server writes parses to its code and headers.
proof fn lemma_head_parses(code: u16, reason: Seq<char>, h: Seq<(Seq<char>, Seq<char>)>)
    requires
        http::no_crlf(reason),
        forall|i: int| 0 <= i < h.len() ==> http::plain_header(#[trigger] h[i]),
    ensures
        http::response_head(vstd::utf8::encode_utf8(head_text(code, reason, h))) == Ok::<
            (u16, Seq<(Seq<char>, Seq<char>)>),
            Seq<char>,
        >((code, h)),
{
    reveal_strlit("\r\n");
    let t = head_text(code, reason, h);
    let l0 = status_line_text(code, reason);
    let sh = http::serialized(h);
    lemma_head_lines(code, reason, h);
    let crlf = "\r\n"@;
    assert(t =~= l0 + crlf + sh + crlf);
    lemma_status_no_crlf(code, reason);
    let e = l0.len() as int;
    assert(http::crlf_at(t, e));
    assert forall|j: int| 0 <= j < e implies !http::crlf_at(t, j) by {
        assert(t[j] == l0[j]);
        if j + 1 < e {
            assert(t[j + 1] == l0[j + 1]);
            assert(!http::crlf_at(l0, j));
        }
    }
    http::lemma_next_crlf_first(t, 0, e);
    assert(t.subrange(0, e) =~= l0);
    lemma_status_line_parses(code, reason);
    let rest = t.subrange(e + 2, t.len() as int);
    assert(rest =~= sh + crlf);
    http::lemma_serialized_ends_with_crlf(h);
    http::lemma_crlf_headers_prefix(sh, crlf, 0);
    http::lemma_serialize_parse_round_trip(h);
    assert(http::next_crlf(crlf, 0) == 0);
    assert(crlf.subrange(0, 0) =~= Seq::<char>::empty());
    http::lemma_crlf_headers_at_end(crlf);
    assert(http::crlf_headers(crlf) =~= Seq::<(Seq<char>, Seq<char>)>::empty());
    assert(http::crlf_headers(rest) =~= h);
}

/// Reading a response's header section stops at its end: the collected
/// bytes hold the header section and a prefix of the body; the stream holds
/// the rest of the body.
proof fn lemma_read_head(code: u16, reason: Seq<char>, h: Seq<(Seq<char>, Seq<char>)>, body: Seq<u8>)
    requires
        http::no_crlf(reason),
        forall|i: int| 0 <= i < h.len() ==> http::plain_header(#[trigger] h[i]),
        vstd::utf8::encode_utf8(head_text(code, reason, h)).len() <= stream::MAX_HEADER_BYTES,
    ensures
        ({
            let input = response_bytes(code, reason, h, body);
            let n = vstd::utf8::encode_utf8(head_text(code, reason, h)).len() as int;
            let r = stream::header_run(stream::header_start(seq![]), input);
            let k = r.buf.len() as int;
            &&& r.stage == stream::ScanStage::Complete
            &&& r.end == n
            &&& n <= k <= input.len()
            &&& r.buf == input.take(k)
            &&& stream::header_run_rest(stream::header_start(seq![]), input) == input.skip(k)
        }),
{
    let n = vstd::utf8::encode_utf8(head_text(code, reason, h)).len() as int;
    let input = response_bytes(code, reason, h, body);
    lemma_head_end_bytes(code, reason, h, body, 0);
    assert forall|q: int| 0 <= q <= input.len() implies #[trigger] http::header_end(input.take(q))
        == (if q >= n {
        Some(n)
    } else {
        None::<int>
    }) by {
        lemma_head_end_bytes(code, reason, h, body, q);
    }
    assert(input.take(0) =~= Seq::<u8>::empty());
    assert(stream::header_start(seq![]) == pending_after(input, 0));
    assert(input.skip(0) =~= input);
    lemma_collect_head(input, n, 0);
}

/// The header conditions under which a written header section is read back
/// as written: its bytes fit the collector's limit, the reason phrase holds
/// no `\r\n`, and every header is plain.
pub open spec fn readable_head(code: u16, reason: Seq<char>, h: Seq<(Seq<char>, Seq<char>)>) -> bool {
    &&& http::no_crlf(reason)
    &&& forall|i: int| 0 <= i < h.len() ==> http::plain_header(#[trigger] h[i])
    &&& vstd::utf8::encode_utf8(head_text(code, reason, h)).len() <= stream::MAX_HEADER_BYTES
}

/// Reading a written response comes down to reading its body: the header
/// section gives back the code and headers, and the first `j` body bytes
/// came with it while the rest is still on the stream.
proof fn lemma_response_body_split(
    code: u16,
    reason: Seq<char>,
    h: Seq<(Seq<char>, Seq<char>)>,
    body: Seq<u8>,
) -> (j: int)
    requires
        readable_head(code, reason, h),
    ensures
        0 <= j <= body.len(),
        stream::response_outcome(response_bytes(code, reason, h, body)) == match stream::body_outcome(
            body.take(j),
            h,
            body.skip(j),
        ) {
            Ok(b) => Ok::<(u16, Seq<(Seq<char>, Seq<char>)>, Seq<u8>), Seq<char>>((code, h, b)),
            Err(e) => Err(e),
        },
{
    let t = head_text(code, reason, h);
    let hb = vstd::utf8::encode_utf8(t);
    let n = hb.len() as int;
    let input = response_bytes(code, reason, h, body);
    lemma_read_head(code, reason, h, body);
    let r = stream::header_run(stream::header_start(seq![]), input);
    let k = r.buf.len() as int;
    assert(input =~= hb + body);
    assert(r.buf.take(n) =~= hb);
    lemma_head_parses(code, reason, h);
    assert(r.buf.skip(n) =~= body.take(k - n));
    assert(input.skip(k) =~= body.skip(k - n));
    k - n
}

/// A response is read back as written (status code, headers and body) when
/// its header section is readable (at most `MAX_HEADER_BYTES` bytes, no
/// header name holding `:`, no `\r\n` inside the reason phrase or a
/// header, no header value starting with whitespace), a `Content-Length`
/// header gives the body's length, and the stream ends with the body.
pub proof fn lemma_response_read_back(
    code: u16,
    reason: Seq<char>,
    h: Seq<(Seq<char>, Seq<char>)>,
    body: Seq<u8>,
)
    requires
        readable_head(code, reason, h),
        http::header_value(h, "Content-Length"@) == Some(text::decimal(body.len())),
        body.len() <= usize::MAX,
    ensures
        stream::response_outcome(response_bytes(code, reason, h, body)) == Ok::<
            (u16, Seq<(Seq<char>, Seq<char>)>, Seq<u8>),
            Seq<char>,
        >((code, h, body)),
{
    let j = lemma_response_body_split(code, reason, h, body);
    stream::lemma_content_length_body(h, body, j, seq![]);
    assert(body.skip(j) + Seq::<u8>::empty() =~= body.skip(j));
}

/// A response with a chunked body is read back as written (status code,
/// headers, and the bytes of its chunks) when its header section is
/// readable, the headers ask for the chunked coding and give no
/// `Content-Length`, and every chunk holds at least one byte. Bytes after
/// the last chunk do not change the result.
pub proof fn lemma_chunked_response_read_back(
    code: u16,
    reason: Seq<char>,
    h: Seq<(Seq<char>, Seq<char>)>,
    chunks: Seq<Seq<u8>>,
    extra: Seq<u8>,
)
    requires
        readable_head(code, reason, h),
        http::header_value(h, "Content-Length"@) is None,
        stream::is_chunked(h),
        forall|i: int| 0 <= i < chunks.len() ==> 0 < (#[trigger] chunks[i]).len() <= usize::MAX,
    ensures
        stream::response_outcome(
            response_bytes(code, reason, h, stream::chunked_text(chunks) + extra),
        ) == Ok::<(u16, Seq<(Seq<char>, Seq<char>)>, Seq<u8>), Seq<char>>(
            (code, h, stream::concat_chunks(chunks)),
        ),
{
    let body = stream::chunked_text(chunks) + extra;
    let j = lemma_response_body_split(code, reason, h, body);
    stream::lemma_chunked_body(h, chunks, extra, j);
}

/// A response whose body runs to the end of the stream is read back as
/// written (status code, headers and body) when its header section is
/// readable and the headers give no `Content-Length` and do not ask for the
/// chunked coding.
pub proof fn lemma_to_end_response_read_back(
    code: u16,
    reason: Seq<char>,
    h: Seq<(Seq<char>, Seq<char>)>,
    body: Seq<u8>,
)
    requires
        readable_head(code, reason, h),
        http::header_value(h, "Content-Length"@) is None,
        !stream::is_chunked(h),
    ensures
        stream::response_outcome(response_bytes(code, reason, h, body)) == Ok::<
            (u16, Seq<(Seq<char>, Seq<char>)>, Seq<u8>),
            Seq<char>,
        >((code, h, body)),
{
    let j = lemma_response_body_split(code, reason, h, body);
    stream::lemma_to_end_body(h, body.take(j), body.skip(j));
    assert(body.take(j) + body.skip(j) =~= body);
}

} // verus!
