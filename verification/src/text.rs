//! Character-level building blocks shared by the parsers: whitespace and
//! ASCII case rules, trimming, number parsing and formatting.
use vstd::prelude::*;

verus! {

broadcast use vstd::string::group_string_axioms;

// ---------------------------------------------------------------------------
// Character classes
// ---------------------------------------------------------------------------

/// Unicode `White_Space`, the set that `char::is_whitespace` recognises.
pub open spec fn is_ws(c: char) -> bool {
    let u = c as u32;
    ||| (0x09 <= u && u <= 0x0D)
    ||| u == 0x20
    ||| u == 0x85
    ||| u == 0xA0
    ||| u == 0x1680
    ||| (0x2000 <= u && u <= 0x200A)
    ||| u == 0x2028
    ||| u == 0x2029
    ||| u == 0x202F
    ||| u == 0x205F
    ||| u == 0x3000
}

pub fn char_is_ws(c: char) -> (b: bool)
    ensures
        b == is_ws(c),
{
    let u = c as u32;
    (0x09 <= u && u <= 0x0D) || u == 0x20 || u == 0x85 || u == 0xA0 || u == 0x1680 || (0x2000
        <= u && u <= 0x200A) || u == 0x2028 || u == 0x2029 || u == 0x202F || u == 0x205F || u
        == 0x3000
}

/// ASCII lower-casing of one character; every other character is unchanged.
pub open spec fn lower_char(c: char) -> char {
    if 'A' <= c && c <= 'Z' {
        ((c as u32) + 32) as char
    } else {
        c
    }
}

pub open spec fn ascii_lower(s: Seq<char>) -> Seq<char> {
    s.map_values(|c: char| lower_char(c))
}

pub fn char_to_lower(c: char) -> (r: char)
    ensures
        r == lower_char(c),
{
    if 'A' <= c && c <= 'Z' {
        let u = (c as u8) + 32;
        u as char
    } else {
        c
    }
}

/// Value of `c` as a digit in base `radix` (10 or 16), if it is one.
pub open spec fn digit_value(c: char, radix: u32) -> Option<nat> {
    if '0' <= c && c <= '9' {
        let d = ((c as u32) - ('0' as u32)) as nat;
        if d < radix {
            Some(d)
        } else {
            None
        }
    } else if radix == 16 && 'a' <= c && c <= 'f' {
        Some(((c as u32) - ('a' as u32) + 10) as nat)
    } else if radix == 16 && 'A' <= c && c <= 'F' {
        Some(((c as u32) - ('A' as u32) + 10) as nat)
    } else {
        None
    }
}

pub fn char_digit(c: char, radix: u32) -> (r: Option<u64>)
    requires
        radix == 10 || radix == 16,
    ensures
        match r {
            Some(d) => digit_value(c, radix) == Some(d as nat),
            None => digit_value(c, radix) is None,
        },
{
    if '0' <= c && c <= '9' {
        let d = (c as u32) - ('0' as u32);
        if d < radix {
            Some(d as u64)
        } else {
            None
        }
    } else if radix == 16 && 'a' <= c && c <= 'f' {
        Some(((c as u32) - ('a' as u32) + 10) as u64)
    } else if radix == 16 && 'A' <= c && c <= 'F' {
        Some(((c as u32) - ('A' as u32) + 10) as u64)
    } else {
        None
    }
}

// ---------------------------------------------------------------------------
// Sequences of characters
// ---------------------------------------------------------------------------

/// Drops leading whitespace.
pub open spec fn trim_start(s: Seq<char>) -> Seq<char>
    decreases s.len(),
{
    if s.len() > 0 && is_ws(s[0]) {
        trim_start(s.drop_first())
    } else {
        s
    }
}

/// Drops trailing whitespace.
pub open spec fn trim_end(s: Seq<char>) -> Seq<char>
    decreases s.len(),
{
    if s.len() > 0 && is_ws(s.last()) {
        trim_end(s.drop_last())
    } else {
        s
    }
}

/// Drops whitespace at both ends.
pub open spec fn trim(s: Seq<char>) -> Seq<char> {
    trim_end(trim_start(s))
}

/// Index of the first character at or after `lo` (and before `hi`) that is
/// not whitespace, or `hi`.
pub open spec fn skip_ws(s: Seq<char>, lo: int, hi: int) -> int
    decreases hi - lo,
{
    if lo < hi && is_ws(s[lo]) {
        skip_ws(s, lo + 1, hi)
    } else {
        lo
    }
}

/// One past the last non-whitespace character of `s[lo..hi]`, or `lo`.
pub open spec fn skip_ws_back(s: Seq<char>, lo: int, hi: int) -> int
    decreases hi - lo,
{
    if lo < hi && is_ws(s[hi - 1]) {
        skip_ws_back(s, lo, hi - 1)
    } else {
        hi
    }
}

pub proof fn lemma_skip_ws_bounds(s: Seq<char>, lo: int, hi: int)
    requires
        lo <= hi,
    ensures
        lo <= skip_ws(s, lo, hi) <= hi,
        skip_ws_back(s, lo, hi) >= lo,
        skip_ws_back(s, lo, hi) <= hi,
    decreases hi - lo,
{
    if lo < hi {
        lemma_skip_ws_bounds(s, lo + 1, hi);
        lemma_skip_ws_bounds(s, lo, hi - 1);
    }
}

/// `skip_ws` computes `trim_start` on a window.
pub proof fn lemma_skip_ws_is_trim_start(s: Seq<char>, lo: int, hi: int)
    requires
        0 <= lo <= hi <= s.len(),
    ensures
        trim_start(s.subrange(lo, hi)) == s.subrange(skip_ws(s, lo, hi), hi),
    decreases hi - lo,
{
    if lo < hi {
        assert(s.subrange(lo, hi)[0] == s[lo]);
        if is_ws(s[lo]) {
            assert(s.subrange(lo, hi).drop_first() =~= s.subrange(lo + 1, hi));
            lemma_skip_ws_is_trim_start(s, lo + 1, hi);
        }
    }
}

/// `skip_ws_back` computes `trim_end` on a window.
pub proof fn lemma_skip_ws_back_is_trim_end(s: Seq<char>, lo: int, hi: int)
    requires
        0 <= lo <= hi <= s.len(),
    ensures
        trim_end(s.subrange(lo, hi)) == s.subrange(lo, skip_ws_back(s, lo, hi)),
    decreases hi - lo,
{
    if lo < hi {
        assert(s.subrange(lo, hi).last() == s[hi - 1]);
        if is_ws(s[hi - 1]) {
            assert(s.subrange(lo, hi).drop_last() =~= s.subrange(lo, hi - 1));
            lemma_skip_ws_back_is_trim_end(s, lo, hi - 1);
        }
    }
}

pub fn skip_ws_exec(v: &Vec<char>, lo: usize, hi: usize) -> (r: usize)
    requires
        lo <= hi <= v.len(),
    ensures
        r == skip_ws(v@, lo as int, hi as int),
        lo <= r <= hi,
{
    let mut i = lo;
    proof {
        lemma_skip_ws_bounds(v@, lo as int, hi as int);
    }
    while i < hi && char_is_ws(v[i])
        invariant
            lo <= i <= hi <= v.len(),
            skip_ws(v@, i as int, hi as int) == skip_ws(v@, lo as int, hi as int),
        decreases hi - i,
    {
        i = i + 1;
    }
    i
}

pub fn skip_ws_back_exec(v: &Vec<char>, lo: usize, hi: usize) -> (r: usize)
    requires
        lo <= hi <= v.len(),
    ensures
        r == skip_ws_back(v@, lo as int, hi as int),
        lo <= r <= hi,
{
    let mut j = hi;
    proof {
        lemma_skip_ws_bounds(v@, lo as int, hi as int);
    }
    while lo < j && char_is_ws(v[j - 1])
        invariant
            lo <= j <= hi <= v.len(),
            skip_ws_back(v@, lo as int, j as int) == skip_ws_back(v@, lo as int, hi as int),
        decreases j - lo,
    {
        j = j - 1;
    }
    j
}

// ---------------------------------------------------------------------------
// Conversions between `str`/`String` and character vectors
// ---------------------------------------------------------------------------

/// Appends one character to a `String` (std's `String::push`).
#[verifier::external_body]
pub(crate) fn push_char(s: &mut String, c: char)
    ensures
        final(s)@ == old(s)@.push(c),
{
    s.push(c);
}

/// Decodes UTF-8 bytes (std's `str::from_utf8`): `None` exactly when the
/// bytes are not valid UTF-8, otherwise the decoded text.
#[verifier::external_body]
pub(crate) fn utf8_decode(bytes: &[u8]) -> (r: Option<&str>)
    ensures
        r is Some <==> vstd::utf8::valid_utf8(bytes@),
        r matches Some(s) ==> s@ == vstd::utf8::decode_utf8(bytes@),
{
    match std::str::from_utf8(bytes) {
        Ok(s) => Some(s),
        Err(_) => None,
    }
}

/// Whether `p` occurs in `s` as a contiguous run.
pub open spec fn contains_seq(s: Seq<char>, p: Seq<char>) -> bool {
    exists|i: int| 0 <= i && i + p.len() <= s.len() && #[trigger] s.subrange(i, i + p.len()) == p
}

/// A run found in `a` is found in `a` followed by anything.
pub proof fn lemma_contains_extend(a: Seq<char>, b: Seq<char>, p: Seq<char>)
    requires
        contains_seq(a, p),
    ensures
        contains_seq(a + b, p),
{
    let i = choose|i: int| 0 <= i && i + p.len() <= a.len() && #[trigger] a.subrange(i, i + p.len()) == p;
    assert((a + b).subrange(i, i + p.len()) =~= a.subrange(i, i + p.len()));
}

/// A run found in `b` is found in anything followed by `b`.
pub proof fn lemma_contains_prepend(a: Seq<char>, b: Seq<char>, p: Seq<char>)
    requires
        contains_seq(b, p),
    ensures
        contains_seq(a + b, p),
{
    let i = choose|i: int| 0 <= i && i + p.len() <= b.len() && #[trigger] b.subrange(i, i + p.len()) == p;
    assert((a + b).subrange(a.len() + i, a.len() + i + p.len()) =~= b.subrange(i, i + p.len()));
}

/// What was just appended is found in the result.
pub proof fn lemma_contains_appended(a: Seq<char>, p: Seq<char>)
    ensures
        contains_seq(a + p, p),
{
    assert((a + p).subrange(a.len() as int, (a.len() + p.len()) as int) =~= p);
}

pub fn contains_chars(s: &Vec<char>, p: &Vec<char>) -> (r: bool)
    ensures
        r == contains_seq(s@, p@),
{
    let n = s.len();
    if p.len() > n {
        return false;
    }
    let mut i: usize = 0;
    while i <= n - p.len()
        invariant
            n == s@.len(),
            p@.len() <= s@.len(),
            i <= s@.len() - p@.len() + 1,
            forall|k: int| 0 <= k < i ==> #[trigger] s@.subrange(k, k + p@.len()) != p@,
        decreases s@.len() - p@.len() + 1 - i,
    {
        let mut j: usize = 0;
        let mut ok = true;
        while j < p.len()
            invariant
                n == s@.len(),
                p@.len() <= s@.len(),
                i + p@.len() <= s@.len(),
                j <= p@.len(),
                ok == forall|t: int| 0 <= t < j ==> s@[i + t] == p@[t],
            decreases p@.len() - j,
        {
            if s[i + j] != p[j] {
                ok = false;
            }
            j = j + 1;
        }
        if ok {
            assert(s@.subrange(i as int, i + p@.len()) =~= p@);
            return true;
        }
        assert(s@.subrange(i as int, i + p@.len()) != p@) by {
            let t = choose|t: int| 0 <= t < p@.len() && s@[i + t] != p@[t];
            assert(s@.subrange(i as int, i + p@.len())[t] != p@[t]);
        }
        i = i + 1;
    }
    false
}

/// The characters of `s`, in order.
pub fn chars_of(s: &str) -> (v: Vec<char>)
    ensures
        v@ == s@,
{
    let mut v: Vec<char> = Vec::new();
    for c in it: s.chars()
        invariant
            v@ == it.seq().take(it.index() as int),
            it.seq() == s@,
    {
        v.push(c);
    }
    v
}

/// A `String` made of `v[lo..hi]`.
pub fn string_from_range(v: &Vec<char>, lo: usize, hi: usize) -> (s: String)
    requires
        lo <= hi <= v.len(),
    ensures
        s@ == v@.subrange(lo as int, hi as int),
{
    let mut s = String::new();
    let mut i = lo;
    while i < hi
        invariant
            lo <= i <= hi <= v.len(),
            s@ == v@.subrange(lo as int, i as int),
        decreases hi - i,
    {
        push_char(&mut s, v[i]);
        assert(v@.subrange(lo as int, i + 1) =~= v@.subrange(lo as int, i as int).push(v@[i as int]));
        i = i + 1;
    }
    s
}

/// A `String` holding exactly the characters of `v`.
pub fn string_from_chars(v: &Vec<char>) -> (s: String)
    ensures
        s@ == v@,
{
    let s = string_from_range(v, 0, v.len());
    assert(v@.subrange(0, v@.len() as int) =~= v@);
    s
}

/// A `String` equal to the literal or slice `s`.
pub fn owned(s: &str) -> (r: String)
    ensures
        r@ == s@,
{
    let v = chars_of(s);
    string_from_chars(&v)
}

/// `a` followed by `b`.
pub fn concat(a: &str, b: &str) -> (r: String)
    ensures
        r@ == a@ + b@,
{
    let mut s = owned(a);
    let vb = chars_of(b);
    let mut i: usize = 0;
    while i < vb.len()
        invariant
            i <= vb.len(),
            vb@ == b@,
            s@ == a@ + vb@.subrange(0, i as int),
        decreases vb.len() - i,
    {
        push_char(&mut s, vb[i]);
        assert(vb@.subrange(0, i + 1) =~= vb@.subrange(0, i as int).push(vb@[i as int]));
        i = i + 1;
    }
    assert(vb@.subrange(0, vb@.len() as int) =~= vb@);
    s
}

/// Appends `t` to `s`.
pub fn append(s: &mut String, t: &str)
    ensures
        final(s)@ == old(s)@ + t@,
{
    let vt = chars_of(t);
    let mut i: usize = 0;
    while i < vt.len()
        invariant
            i <= vt.len(),
            vt@ == t@,
            s@ == old(s)@ + vt@.subrange(0, i as int),
        decreases vt.len() - i,
    {
        push_char(s, vt[i]);
        assert(vt@.subrange(0, i + 1) =~= vt@.subrange(0, i as int).push(vt@[i as int]));
        i = i + 1;
    }
    assert(vt@.subrange(0, vt@.len() as int) =~= vt@);
}

/// Whether two strings hold the same characters.
pub fn str_eq(a: &str, b: &str) -> (r: bool)
    ensures
        r == (a@ == b@),
{
    let va = chars_of(a);
    let vb = chars_of(b);
    if va.len() != vb.len() {
        return false;
    }
    let mut i: usize = 0;
    while i < va.len()
        invariant
            i <= va.len() == vb.len(),
            va@ == a@,
            vb@ == b@,
            forall|j: int| 0 <= j < i ==> va@[j] == vb@[j],
        decreases va.len() - i,
    {
        if va[i] != vb[i] {
            return false;
        }
        i = i + 1;
    }
    assert(va@ =~= vb@);
    true
}

/// Whether two character vectors are equal.
pub fn chars_eq(a: &Vec<char>, b: &Vec<char>) -> (r: bool)
    ensures
        r == (a@ == b@),
{
    if a.len() != b.len() {
        return false;
    }
    let mut i: usize = 0;
    while i < a.len()
        invariant
            i <= a.len() == b.len(),
            forall|j: int| 0 <= j < i ==> a@[j] == b@[j],
        decreases a.len() - i,
    {
        if a[i] != b[i] {
            return false;
        }
        i = i + 1;
    }
    assert(a@ =~= b@);
    true
}

/// ASCII lower-cased copy of `v[lo..hi]`.
pub fn lower_range(v: &Vec<char>, lo: usize, hi: usize) -> (r: Vec<char>)
    requires
        lo <= hi <= v.len(),
    ensures
        r@ == ascii_lower(v@.subrange(lo as int, hi as int)),
{
    let mut r: Vec<char> = Vec::new();
    let mut i = lo;
    while i < hi
        invariant
            lo <= i <= hi <= v.len(),
            r@ == ascii_lower(v@.subrange(lo as int, i as int)),
        decreases hi - i,
    {
        r.push(char_to_lower(v[i]));
        assert(ascii_lower(v@.subrange(lo as int, i + 1)) =~= ascii_lower(
            v@.subrange(lo as int, i as int),
        ).push(lower_char(v@[i as int])));
        i = i + 1;
    }
    r
}

/// Whether `a` and `b` are equal once both are ASCII lower-cased.
pub fn eq_ignore_ascii_case(a: &Vec<char>, b: &Vec<char>) -> (r: bool)
    ensures
        r == (ascii_lower(a@) == ascii_lower(b@)),
{
    if a.len() != b.len() {
        assert(ascii_lower(a@).len() == a@.len());
        assert(ascii_lower(b@).len() == b@.len());
        return false;
    }
    let mut i: usize = 0;
    while i < a.len()
        invariant
            i <= a.len() == b.len(),
            forall|j: int| 0 <= j < i ==> lower_char(a@[j]) == lower_char(b@[j]),
        decreases a.len() - i,
    {
        if char_to_lower(a[i]) != char_to_lower(b[i]) {
            assert(ascii_lower(a@)[i as int] != ascii_lower(b@)[i as int]);
            return false;
        }
        i = i + 1;
    }
    assert(ascii_lower(a@) =~= ascii_lower(b@));
    true
}

// ---------------------------------------------------------------------------
// Unsigned integers: parsing (as `str::parse` / `from_str_radix`) and printing
// ---------------------------------------------------------------------------

/// Value of a non-empty run of digits in `radix`, most significant first.
pub open spec fn digits_value(s: Seq<char>, radix: u32) -> int
    decreases s.len(),
{
    if s.len() == 0 {
        0
    } else {
        digits_value(s.drop_last(), radix) * radix + match digit_value(s.last(), radix) {
            Some(d) => d as int,
            None => 0,
        }
    }
}

pub open spec fn all_digits(s: Seq<char>, radix: u32) -> bool {
    forall|i: int| 0 <= i < s.len() ==> (#[trigger] digit_value(s[i], radix)) is Some
}

/// std's unsigned parse: an optional leading `+`, then at least one digit,
/// nothing else, and a value no larger than `max`.
pub open spec fn parse_unsigned(s: Seq<char>, radix: u32, max: int) -> Option<int> {
    let body = if s.len() > 0 && s[0] == '+' {
        s.drop_first()
    } else {
        s
    };
    if body.len() > 0 && all_digits(body, radix) && digits_value(body, radix) <= max {
        Some(digits_value(body, radix))
    } else {
        None
    }
}

proof fn lemma_digits_value_nonneg(s: Seq<char>, radix: u32)
    requires
        radix == 10 || radix == 16,
    ensures
        digits_value(s, radix) >= 0,
    decreases s.len(),
{
    if s.len() > 0 {
        lemma_digits_value_nonneg(s.drop_last(), radix);
        assert(digits_value(s.drop_last(), radix) * radix >= 0) by (nonlinear_arith)
            requires
                digits_value(s.drop_last(), radix) >= 0,
                radix >= 10,
        ;
    }
}

proof fn lemma_digits_value_monotone(s: Seq<char>, radix: u32, k: int)
    requires
        radix == 10 || radix == 16,
        0 <= k <= s.len(),
        all_digits(s, radix),
    ensures
        digits_value(s.take(k), radix) <= digits_value(s, radix),
    decreases s.len() - k,
{
    if k < s.len() {
        lemma_digits_value_monotone(s, radix, k + 1);
        let t = s.take(k + 1);
        assert(t.drop_last() =~= s.take(k));
        assert(digit_value(t.last(), radix) is Some) by {
            assert(t.last() == s[k]);
        }
        lemma_digits_value_nonneg(s.take(k), radix);
        let a = digits_value(s.take(k), radix);
        assert(a * radix >= a) by (nonlinear_arith)
            requires
                a >= 0,
                radix >= 10,
        ;
    } else {
        assert(s.take(k) =~= s);
    }
}

/// Parses `v[lo..hi]` as std's `from_str_radix` does for an unsigned type whose
/// largest value is `max`.
pub fn parse_unsigned_range(v: &Vec<char>, lo: usize, hi: usize, radix: u32, max: u64) -> (r:
    Option<u64>)
    requires
        lo <= hi <= v.len(),
        radix == 10 || radix == 16,
    ensures
        match r {
            Some(n) => parse_unsigned(v@.subrange(lo as int, hi as int), radix, max as int) == Some(
                n as int,
            ),
            None => parse_unsigned(v@.subrange(lo as int, hi as int), radix, max as int) is None,
        },
{
    let ghost s = v@.subrange(lo as int, hi as int);
    let mut start = lo;
    if lo < hi && v[lo] == '+' {
        start = lo + 1;
    }
    let ghost body = v@.subrange(start as int, hi as int);
    assert(body =~= (if s.len() > 0 && s[0] == '+' {
        s.drop_first()
    } else {
        s
    }));
    if start == hi {
        return None;
    }
    let mut acc: u64 = 0;
    let mut i = start;
    let r64: u64 = radix as u64;
    while i < hi
        invariant
            start <= i <= hi <= v.len(),
            start < hi,
            r64 == radix,
            radix == 10 || radix == 16,
            body == v@.subrange(start as int, hi as int),
            parse_unsigned(v@.subrange(lo as int, hi as int), radix, max as int) == (if body.len()
                > 0 && all_digits(body, radix) && digits_value(body, radix) <= max {
                Some(digits_value(body, radix))
            } else {
                None
            }),
            all_digits(v@.subrange(start as int, i as int), radix),
            acc as int == digits_value(v@.subrange(start as int, i as int), radix),
            acc <= max,
        decreases hi - i,
    {
        let d = char_digit(v[i], radix);
        let ghost pre = v@.subrange(start as int, i as int);
        let ghost next = v@.subrange(start as int, i + 1);
        assert(next.drop_last() =~= pre);
        assert(next.last() == v@[i as int]);
        match d {
            None => {
                assert(body[i - start] == v@[i as int]);
                assert(digit_value(body[i - start], radix) is None);
                assert(!all_digits(body, radix));
                return None;
            },
            Some(dv) => {
                assert(digits_value(next, radix) == acc * radix + dv);
                // acc * radix + dv <= max  <=>  acc <= (max - dv) / radix
                if dv > max || acc > (max - dv) / r64 {
                    proof {
                        assert(acc * radix + dv > max) by (nonlinear_arith)
                            requires
                                dv > max || acc > (max - dv) / (radix as int),
                                radix > 0,
                                acc >= 0,
                                dv >= 0,
                        ;
                        assert(next =~= body.take(i + 1 - start));
                        assert(all_digits(body, radix) ==> digits_value(next, radix)
                            <= digits_value(body, radix)) by {
                            if all_digits(body, radix) {
                                lemma_digits_value_monotone(body, radix, i + 1 - start);
                            }
                        }
                        assert(!all_digits(body, radix) || digits_value(body, radix) > max);
                    }
                    return None;
                }
                proof {
                    assert(acc * radix + dv <= max) by (nonlinear_arith)
                        requires
                            dv <= max,
                            acc <= (max - dv) / (radix as int),
                            radix > 0,
                            acc >= 0,
                    ;
                    assert(all_digits(next, radix)) by {
                        assert forall|j: int| 0 <= j < next.len() implies (#[trigger] digit_value(
                            next[j],
                            radix,
                        )) is Some by {
                            if j < pre.len() {
                                assert(next[j] == pre[j]);
                            }
                        }
                    }
                }
                acc = acc * r64 + dv;
                i = i + 1;
            },
        }
    }
    Some(acc)
}

/// Decimal digits of `n`, without leading zeros ("0" for zero).
pub open spec fn decimal(n: nat) -> Seq<char>
    decreases n,
{
    if n < 10 {
        seq![digit_char(n)]
    } else {
        decimal(n / 10).push(digit_char(n % 10))
    }
}

pub open spec fn digit_char(d: nat) -> char {
    ((d + ('0' as u32)) as u32) as char
}

/// Decimal digits parse back to the number they print.
pub proof fn lemma_decimal_parses(n: nat, max: int)
    requires
        n <= max,
    ensures
        parse_unsigned(decimal(n), 10, max) == Some(n as int),
{
    lemma_decimal_digits(n);
    assert(decimal(n)[0] != '+');
}

pub proof fn lemma_decimal_digits(n: nat)
    ensures
        decimal(n).len() > 0,
        all_digits(decimal(n), 10),
        digits_value(decimal(n), 10) == n,
        '0' <= decimal(n)[0] <= '9',
    decreases n,
{
    let d = n % 10;
    assert(digit_value(digit_char(d), 10) == Some(d)) by {
        assert(digit_char(d) as u32 == d + 48);
    }
    if n < 10 {
        assert(decimal(n) =~= seq![digit_char(n)]);
        assert(decimal(n).drop_last() =~= Seq::<char>::empty());
        assert(d == n);
        assert(digits_value(decimal(n), 10) == digits_value(Seq::<char>::empty(), 10) * 10 + d);
    } else {
        lemma_decimal_digits(n / 10);
        let s = decimal(n);
        assert(s.drop_last() =~= decimal(n / 10));
        assert(s.last() == digit_char(d));
        assert(digits_value(s, 10) == digits_value(decimal(n / 10), 10) * 10 + d);
        assert((n / 10) * 10 + d == n) by (nonlinear_arith)
            requires
                d == n % 10,
        ;
        assert(s[0] == decimal(n / 10)[0]);
        assert forall|i: int| 0 <= i < s.len() implies (#[trigger] digit_value(s[i], 10)) is Some by {
            if i < s.len() - 1 {
                assert(s[i] == decimal(n / 10)[i]);
            }
        }
        assert(n == (n / 10) * 10 + d);
    }
}

/// Lower-case hexadecimal digits of `n`, without leading zeros ("0" for zero).
pub open spec fn hex(n: nat) -> Seq<char>
    decreases n,
{
    if n < 16 {
        seq![hex_digit_char(n)]
    } else {
        hex(n / 16).push(hex_digit_char(n % 16))
    }
}

pub open spec fn hex_digit_char(d: nat) -> char {
    if d < 10 {
        ((d + ('0' as u32)) as u32) as char
    } else {
        ((d - 10 + ('a' as u32)) as u32) as char
    }
}

/// What a hexadecimal digit string is made of: digits `0`-`9` and `a`-`f`,
/// hence ASCII, no whitespace, no `;`, no CR or LF.
pub open spec fn is_hex_text(s: Seq<char>) -> bool {
    forall|i: int|
        0 <= i < s.len() ==> ('0' <= #[trigger] s[i] <= '9' || 'a' <= s[i] <= 'f')
}

/// Hexadecimal digits parse back to the number they print, and consist of
/// hex digit characters only; below `16^16` there are at most 16 of them.
pub proof fn lemma_hex_parses(n: nat, max: int)
    requires
        n <= max,
    ensures
        parse_unsigned(hex(n), 16, max) == Some(n as int),
        is_hex_text(hex(n)),
        hex(n).len() > 0,
        n <= u64::MAX ==> hex(n).len() <= 16,
{
    lemma_hex_digits(n);
    lemma_hex_len(n, 16);
    assert(pow16(16) == 0x1_0000_0000_0000_0000) by {
        reveal_with_fuel(pow16, 17);
    }
}

pub open spec fn pow16(k: nat) -> nat
    decreases k,
{
    if k == 0 {
        1
    } else {
        16 * pow16((k - 1) as nat)
    }
}

proof fn lemma_hex_len(n: nat, k: nat)
    ensures
        k >= 1 && n < pow16(k) ==> hex(n).len() <= k,
    decreases k,
{
    if k > 1 && n >= 16 {
        lemma_hex_len(n / 16, (k - 1) as nat);
        assert(n < pow16(k) ==> n / 16 < pow16((k - 1) as nat)) by (nonlinear_arith)
            requires
                pow16(k) == 16 * pow16((k - 1) as nat),
        ;
    }
    if k == 1 {
        assert(pow16(1) == 16) by {
            reveal_with_fuel(pow16, 2);
        }
    }
}

proof fn lemma_hex_digits(n: nat)
    ensures
        hex(n).len() > 0,
        all_digits(hex(n), 16),
        is_hex_text(hex(n)),
        digits_value(hex(n), 16) == n,
        hex(n)[0] != '+',
    decreases n,
{
    let d = n % 16;
    assert(digit_value(hex_digit_char(d), 16) == Some(d)) by {
        if d < 10 {
            assert(hex_digit_char(d) as u32 == d + 48);
        } else {
            assert(hex_digit_char(d) as u32 == d + 87);
        }
    }
    assert('0' <= hex_digit_char(d) <= '9' || 'a' <= hex_digit_char(d) <= 'f') by {
        if d < 10 {
            assert(hex_digit_char(d) as u32 == d + 48);
        } else {
            assert(hex_digit_char(d) as u32 == d + 87);
        }
    }
    if n < 16 {
        assert(hex(n) =~= seq![hex_digit_char(n)]);
        assert(hex(n).drop_last() =~= Seq::<char>::empty());
        assert(d == n);
        assert(digits_value(hex(n), 16) == digits_value(Seq::<char>::empty(), 16) * 16 + d);
    } else {
        lemma_hex_digits(n / 16);
        let s = hex(n);
        assert(s.drop_last() =~= hex(n / 16));
        assert(s.last() == hex_digit_char(d));
        assert(s[0] == hex(n / 16)[0]);
        assert(digits_value(s, 16) == digits_value(hex(n / 16), 16) * 16 + d);
        assert((n / 16) * 16 + d == n) by (nonlinear_arith)
            requires
                d == n % 16,
        ;
        assert forall|i: int| 0 <= i < s.len() implies (#[trigger] digit_value(s[i], 16)) is Some
            && ('0' <= s[i] <= '9' || 'a' <= s[i] <= 'f') by {
            if i < s.len() - 1 {
                assert(s[i] == hex(n / 16)[i]);
            }
        }
    }
}

/// The decimal text of `n` (what `n.to_string()` produces).
pub fn decimal_string(n: u64) -> (s: String)
    ensures
        s@ == decimal(n as nat),
    decreases n,
{
    if n < 10 {
        let mut s = String::new();
        let c = ((n as u8) + 48) as char;
        push_char(&mut s, c);
        assert(s@ =~= seq![digit_char(n as nat)]);
        s
    } else {
        let mut s = decimal_string(n / 10);
        let c = (((n % 10) as u8) + 48) as char;
        push_char(&mut s, c);
        s
    }
}

/// `s` without leading and trailing whitespace.
pub fn trim_str(s: &str) -> (r: String)
    ensures
        r@ == trim(s@),
{
    let v = chars_of(s);
    let a = skip_ws_exec(&v, 0, v.len());
    let b = skip_ws_back_exec(&v, a, v.len());
    proof {
        assert(v@.subrange(0, v@.len() as int) =~= v@);
        lemma_skip_ws_is_trim_start(v@, 0, v@.len() as int);
        lemma_skip_ws_back_is_trim_end(v@, a as int, v@.len() as int);
    }
    string_from_range(&v, a, b)
}

/// ASCII lower-cased copy of `s`.
pub fn lower_str(s: &str) -> (r: String)
    ensures
        r@ == ascii_lower(s@),
{
    let v = chars_of(s);
    let l = lower_range(&v, 0, v.len());
    proof {
        assert(v@.subrange(0, v@.len() as int) =~= v@);
    }
    string_from_chars(&l)
}

/// Parses `s` as std's `str::parse` does for an unsigned type with largest value `max`.
pub fn parse_unsigned_str(s: &str, max: u64) -> (r: Option<u64>)
    ensures
        match r {
            Some(n) => parse_unsigned(s@, 10, max as int) == Some(n as int),
            None => parse_unsigned(s@, 10, max as int) is None,
        },
{
    let v = chars_of(s);
    proof {
        assert(v@.subrange(0, v@.len() as int) =~= v@);
    }
    parse_unsigned_range(&v, 0, v.len(), 10, max)
}

} // verus!
