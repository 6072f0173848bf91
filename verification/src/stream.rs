//! Reading an HTTP response off a byte stream.
//!
//! Each reader is a state machine: it says how many bytes it wants next, and
//! is told what a read produced (bytes, end of stream, or a read error). The
//! transport code runs the loop; the in-memory helpers at the end of this
//! module run the same machines over a [`ByteCursor`].
use vstd::prelude::*;
use crate::http;
use crate::http::{header_lookup, memchr_crlf_crlf};
use crate::text;
use crate::text::{chars_of, concat, contains_chars, lower_range, owned, parse_unsigned_range, skip_ws_back_exec, skip_ws_exec, utf8_decode};

verus! {

broadcast use vstd::string::group_string_axioms;

/// Largest header section accepted while looking for its end.
pub const MAX_HEADER_BYTES: usize = 1048576;

/// Largest chunk-size line (terminator included) before decoding gives up.
pub const MAX_CHUNK_LINE: usize = 1024;

/// Bytes requested per read while collecting the header section.
pub const HEADER_READ_SIZE: usize = 1024;

/// Bytes requested per read while reading a body up to end of stream.
pub const EOF_READ_SIZE: usize = 16384;

pub open spec fn read_error_text(msg: Seq<char>) -> Seq<char> {
    "read error: "@ + msg
}

// ---------------------------------------------------------------------------
// In-memory byte sources
// ---------------------------------------------------------------------------

/// A byte source over an in-memory buffer (reads never fail).
pub struct ByteCursor {
    data: Vec<u8>,
    pos: usize,
}

impl ByteCursor {
    #[verifier::type_invariant]
    spec fn inv(self) -> bool {
        self.pos <= self.data@.len()
    }

    /// The bytes not yet read.
    pub closed spec fn remaining(&self) -> Seq<u8> {
        self.data@.subrange(self.pos as int, self.data@.len() as int)
    }

    /// All the bytes, read or not.
    pub closed spec fn contents(&self) -> Seq<u8> {
        self.data@
    }

    pub fn new(data: Vec<u8>) -> (c: ByteCursor)
        ensures
            c.remaining() == data@,
            c.contents() == data@,
    {
        let c = ByteCursor { data, pos: 0 };
        assert(c.data@.subrange(0, c.data@.len() as int) =~= c.data@);
        c
    }

    /// Reads up to `max` bytes: the next `min(max, remaining)` bytes.
    pub fn read(&mut self, max: usize) -> (out: Vec<u8>)
        ensures
            out@.len() == (if max < old(self).remaining().len() {
                max as int
            } else {
                old(self).remaining().len() as int
            }),
            out@ == old(self).remaining().take(out@.len() as int),
            final(self).remaining() == old(self).remaining().skip(out@.len() as int),
            final(self).contents() == old(self).contents(),
    {
        proof {
            use_type_invariant(&*self);
        }
        let avail = self.data.len() - self.pos;
        let n = if max < avail {
            max
        } else {
            avail
        };
        let mut out: Vec<u8> = Vec::new();
        let mut i: usize = 0;
        let dl = self.data.len();
        while i < n
            invariant
                i <= n,
                dl == self.data@.len(),
                self.pos + n <= dl,
                out@ == self.data@.subrange(self.pos as int, self.pos + i),
            decreases n - i,
        {
            out.push(self.data[self.pos + i]);
            assert(self.data@.subrange(self.pos as int, self.pos + i + 1) =~= self.data@.subrange(
                self.pos as int,
                self.pos + i,
            ).push(self.data@[self.pos + i]));
            i = i + 1;
        }
        let ghost old_rem = self.remaining();
        self.pos = self.pos + n;
        proof {
            assert(out@ =~= old_rem.take(n as int));
            assert(self.remaining() =~= old_rem.skip(n as int));
        }
        out
    }

    /// Number of bytes not yet read.
    pub fn remaining_len(&self) -> (n: usize)
        ensures
            n == self.remaining().len(),
    {
        proof {
            use_type_invariant(self);
        }
        self.data.len() - self.pos
    }
}

/// A reader that first reads from remaining bytes, then from an inner reader.
pub struct RestThen {
    rest: ByteCursor,
    inner: ByteCursor,
}

impl RestThen {
    /// The unread part of `rest`.
    pub closed spec fn rest_left(&self) -> Seq<u8> {
        self.rest.remaining()
    }

    pub closed spec fn inner(&self) -> ByteCursor {
        self.inner
    }

    /// What is left to read: the unread part of `rest`, then the inner source.
    pub open spec fn remaining(&self) -> Seq<u8> {
        self.rest_left() + self.inner().remaining()
    }

    pub fn new(rest: &[u8], inner: ByteCursor) -> (r: RestThen)
        ensures
            r.rest_left() == rest@,
            r.inner() == inner,
    {
        let v = vstd::slice::slice_to_vec(rest);
        RestThen { rest: ByteCursor::new(v), inner }
    }

    /// Reads up to `max` bytes: while `rest` has unread bytes they come from
    /// it alone, afterwards from the inner source.
    pub fn read(&mut self, max: usize) -> (out: Vec<u8>)
        ensures
            old(self).rest_left().len() > 0 ==> {
                &&& out@.len() == (if max < old(self).rest_left().len() {
                    max as int
                } else {
                    old(self).rest_left().len() as int
                })
                &&& out@ == old(self).rest_left().take(out@.len() as int)
                &&& final(self).rest_left() == old(self).rest_left().skip(out@.len() as int)
                &&& final(self).inner() == old(self).inner()
            },
            old(self).rest_left().len() == 0 ==> {
                &&& out@.len() == (if max < old(self).inner().remaining().len() {
                    max as int
                } else {
                    old(self).inner().remaining().len() as int
                })
                &&& out@ == old(self).inner().remaining().take(out@.len() as int)
                &&& final(self).inner().remaining() == old(self).inner().remaining().skip(
                    out@.len() as int,
                )
                &&& final(self).rest_left().len() == 0
            },
    {
        if self.rest.remaining_len() > 0 {
            self.rest.read(max)
        } else {
            self.inner.read(max)
        }
    }
}

// ---------------------------------------------------------------------------
// Collecting the header section
// ---------------------------------------------------------------------------

#[derive(PartialEq, Eq, Structural, Clone, Copy)]
pub enum ScanStage {
    Pending,
    Complete,
    Failed,
}

/// Abstract state of a [`HeaderCollector`].
pub struct HeaderModel {
    pub stage: ScanStage,
    pub buf: Seq<u8>,
    pub end: int,
    pub error: Seq<char>,
}

pub open spec fn header_start(buf: Seq<u8>) -> HeaderModel {
    match http::header_end(buf) {
        Some(p) => HeaderModel { stage: ScanStage::Complete, buf, end: p, error: seq![] },
        None => HeaderModel { stage: ScanStage::Pending, buf, end: 0, error: seq![] },
    }
}

/// A read produced `chunk`: it is appended; a buffer over the size cap fails,
/// otherwise the section is complete once it holds `\r\n\r\n`.
pub open spec fn header_on_chunk(m: HeaderModel, chunk: Seq<u8>) -> HeaderModel {
    if m.stage != ScanStage::Pending {
        m
    } else {
        let buf = m.buf + chunk;
        if buf.len() > MAX_HEADER_BYTES {
            HeaderModel { stage: ScanStage::Failed, buf, end: 0, error: "headers too large"@ }
        } else {
            match http::header_end(buf) {
                Some(p) => HeaderModel { stage: ScanStage::Complete, buf, end: p, error: seq![] },
                None => HeaderModel { stage: ScanStage::Pending, buf, end: 0, error: seq![] },
            }
        }
    }
}

pub open spec fn header_on_end(m: HeaderModel) -> HeaderModel {
    if m.stage != ScanStage::Pending {
        m
    } else {
        HeaderModel { stage: ScanStage::Failed, error: "unexpected EOF while reading headers"@, ..m }
    }
}

pub open spec fn header_on_error(m: HeaderModel, msg: Seq<char>) -> HeaderModel {
    if m.stage != ScanStage::Pending {
        m
    } else {
        HeaderModel { stage: ScanStage::Failed, error: read_error_text(msg), ..m }
    }
}

pub open spec fn header_result(m: HeaderModel) -> Option<Result<int, Seq<char>>> {
    match m.stage {
        ScanStage::Pending => None,
        ScanStage::Complete => Some(Ok(m.end)),
        ScanStage::Failed => Some(Err(m.error)),
    }
}

/// Collects bytes until the header section (ending in `\r\n\r\n`) is complete.
pub struct HeaderCollector {
    stage: ScanStage,
    buf: Vec<u8>,
    end: usize,
    error: String,
}

impl HeaderCollector {
    pub closed spec fn model(&self) -> HeaderModel {
        HeaderModel {
            stage: self.stage,
            buf: self.buf@,
            end: self.end as int,
            error: self.error@,
        }
    }

    /// Starts from the bytes already in `buf`.
    pub fn new(buf: Vec<u8>) -> (c: HeaderCollector)
        ensures
            c.model() == header_start(buf@),
    {
        match memchr_crlf_crlf(buf.as_slice()) {
            Some(p) => HeaderCollector { stage: ScanStage::Complete, buf, end: p, error: String::new() },
            None => HeaderCollector { stage: ScanStage::Pending, buf, end: 0, error: String::new() },
        }
    }

    /// Bytes to request next (0 once finished).
    pub fn wants(&self) -> (n: usize)
        ensures
            n == (if self.model().stage == ScanStage::Pending {
                HEADER_READ_SIZE
            } else {
                0
            }),
    {
        if self.stage == ScanStage::Pending {
            HEADER_READ_SIZE
        } else {
            0
        }
    }

    pub fn on_chunk(&mut self, chunk: &[u8])
        ensures
            final(self).model() == header_on_chunk(old(self).model(), chunk@),
    {
        if self.stage != ScanStage::Pending {
            return;
        }
        http::extend_bytes(&mut self.buf, chunk);
        if self.buf.len() > MAX_HEADER_BYTES {
            self.stage = ScanStage::Failed;
            self.end = 0;
            self.error = owned("headers too large");
            return;
        }
        match memchr_crlf_crlf(self.buf.as_slice()) {
            Some(p) => {
                self.stage = ScanStage::Complete;
                self.end = p;
                self.error = String::new();
            },
            None => {
                self.end = 0;
                self.error = String::new();
            },
        }
    }

    pub fn on_end(&mut self)
        ensures
            final(self).model() == header_on_end(old(self).model()),
    {
        if self.stage == ScanStage::Pending {
            self.stage = ScanStage::Failed;
            self.error = owned("unexpected EOF while reading headers");
        }
    }

    pub fn on_error(&mut self, msg: &str)
        ensures
            final(self).model() == header_on_error(old(self).model(), msg@),
    {
        if self.stage == ScanStage::Pending {
            self.stage = ScanStage::Failed;
            self.error = concat("read error: ", msg);
        }
    }

    /// `Some` once finished: the header end position, or the error.
    pub fn result(&self) -> (r: Option<Result<usize, String>>)
        ensures
            match r {
                None => header_result(self.model()) is None,
                Some(Ok(p)) => header_result(self.model()) == Some(Ok::<int, Seq<char>>(p as int)),
                Some(Err(e)) => header_result(self.model()) == Some(Err::<int, Seq<char>>(e@)),
            },
    {
        match self.stage {
            ScanStage::Pending => None,
            ScanStage::Complete => Some(Ok(self.end)),
            ScanStage::Failed => Some(Err(owned(self.error.as_str()))),
        }
    }

    /// The bytes collected so far.
    pub fn into_buf(self) -> (b: Vec<u8>)
        ensures
            b@ == self.model().buf,
    {
        self.buf
    }
}

// ---------------------------------------------------------------------------
// Chunked transfer coding
// ---------------------------------------------------------------------------

#[derive(PartialEq, Eq, Structural, Clone, Copy)]
pub enum ChunkStage {
    SizeLine,
    Data,
    Terminator,
    Trailer,
    Done,
    Failed,
}

/// Abstract state of a [`ChunkedDecoder`].
pub struct ChunkModel {
    pub stage: ChunkStage,
    /// The size line read so far.
    pub line: Seq<u8>,
    /// The byte read before the last one on the size line.
    pub last: u8,
    /// Data bytes still due in the current chunk, or trailer reads still due.
    pub left: nat,
    /// The chunk terminator bytes read so far.
    pub term: Seq<u8>,
    pub body: Seq<u8>,
    pub error: Seq<char>,
}

/// The size announced by a size line (without its CRLF): the text must be
/// UTF-8; anything from the first `;` on is an extension and ignored; the
/// rest, trimmed, is a hexadecimal number.
pub open spec fn chunk_size(content: Seq<u8>) -> Result<nat, Seq<char>> {
    if !vstd::utf8::valid_utf8(content) {
        Err("invalid utf-8 in chunk size"@)
    } else {
        let t = vstd::utf8::decode_utf8(content);
        let size_text = text::trim(t.subrange(0, http::next_char(t, ';', 0)));
        match text::parse_unsigned(size_text, 16, usize::MAX as int) {
            Some(n) => Ok(n as nat),
            None => Err("invalid chunk size"@),
        }
    }
}

pub open spec fn chunk_init() -> ChunkModel {
    ChunkModel {
        stage: ChunkStage::SizeLine,
        line: seq![],
        last: 0,
        left: 0,
        term: seq![],
        body: seq![],
        error: seq![],
    }
}

pub open spec fn chunk_fail(m: ChunkModel, e: Seq<char>) -> ChunkModel {
    ChunkModel { stage: ChunkStage::Failed, error: e, ..m }
}

pub open spec fn chunk_is_done(m: ChunkModel) -> bool {
    m.stage == ChunkStage::Done || m.stage == ChunkStage::Failed
}

/// One byte arrives.
pub open spec fn chunk_on_byte(m: ChunkModel, b: u8) -> ChunkModel {
    match m.stage {
        ChunkStage::SizeLine => {
            let line = m.line.push(b);
            if line.len() >= 2 && m.last == 13 && b == 10 {
                match chunk_size(line.subrange(0, line.len() - 2)) {
                    Err(e) => chunk_fail(ChunkModel { line, ..m }, e),
                    Ok(n) => if n == 0 {
                        ChunkModel { stage: ChunkStage::Trailer, line, left: 2, ..m }
                    } else {
                        ChunkModel { stage: ChunkStage::Data, line, left: n, ..m }
                    },
                }
            } else if line.len() > MAX_CHUNK_LINE {
                chunk_fail(ChunkModel { line, last: b, ..m }, "chunk size line too long"@)
            } else {
                ChunkModel { line, last: b, ..m }
            }
        },
        ChunkStage::Data => {
            let body = m.body.push(b);
            if m.left <= 1 {
                ChunkModel { stage: ChunkStage::Terminator, body, left: 0, term: seq![], ..m }
            } else {
                ChunkModel { body, left: (m.left - 1) as nat, ..m }
            }
        },
        ChunkStage::Terminator => {
            let term = m.term.push(b);
            if term.len() < 2 {
                ChunkModel { term, ..m }
            } else if term == seq![13u8, 10u8] {
                ChunkModel { stage: ChunkStage::SizeLine, term, line: seq![], last: 0, ..m }
            } else {
                chunk_fail(ChunkModel { term, ..m }, "invalid chunk terminator"@)
            }
        },
        ChunkStage::Trailer => if m.left <= 1 {
            ChunkModel { stage: ChunkStage::Done, left: 0, ..m }
        } else {
            ChunkModel { left: (m.left - 1) as nat, ..m }
        },
        _ => m,
    }
}

/// The stream ended.
pub open spec fn chunk_on_end(m: ChunkModel) -> ChunkModel {
    match m.stage {
        ChunkStage::SizeLine => chunk_fail(m, "unexpected EOF in chunked encoding"@),
        ChunkStage::Data => chunk_fail(m, "unexpected EOF while reading body"@),
        ChunkStage::Terminator => chunk_fail(m, read_error_text("failed to fill whole buffer"@)),
        ChunkStage::Trailer => if m.left <= 1 {
            ChunkModel { stage: ChunkStage::Done, left: 0, ..m }
        } else {
            ChunkModel { left: (m.left - 1) as nat, ..m }
        },
        _ => m,
    }
}

/// A read failed with `msg`; the final trailer reads ignore failures.
pub open spec fn chunk_on_error(m: ChunkModel, msg: Seq<char>) -> ChunkModel {
    match m.stage {
        ChunkStage::SizeLine | ChunkStage::Data | ChunkStage::Terminator => chunk_fail(
            m,
            read_error_text(msg),
        ),
        _ => chunk_on_end(m),
    }
}

pub open spec fn chunk_wants(m: ChunkModel) -> nat {
    match m.stage {
        ChunkStage::SizeLine => 1,
        ChunkStage::Data => m.left,
        ChunkStage::Terminator => if m.term.len() < 2 {
            (2 - m.term.len()) as nat
        } else {
            0
        },
        ChunkStage::Trailer => 1,
        _ => 0,
    }
}

/// The state after `bytes` arrive one by one.
pub open spec fn chunk_feed(m: ChunkModel, bytes: Seq<u8>) -> ChunkModel
    decreases bytes.len(),
{
    if bytes.len() == 0 {
        m
    } else {
        chunk_on_byte(chunk_feed(m, bytes.drop_last()), bytes.last())
    }
}

/// The state once the stream has ended (the end is reported until the
/// decoder stops asking for bytes; two reports always suffice).
pub open spec fn chunk_finish(m: ChunkModel) -> ChunkModel {
    if chunk_is_done(m) {
        m
    } else if chunk_is_done(chunk_on_end(m)) {
        chunk_on_end(m)
    } else {
        chunk_on_end(chunk_on_end(m))
    }
}

pub open spec fn chunk_result(m: ChunkModel) -> Option<Result<Seq<u8>, Seq<char>>> {
    match m.stage {
        ChunkStage::Done => Some(Ok(m.body)),
        ChunkStage::Failed => Some(Err(m.error)),
        _ => None,
    }
}

/// The outcome of decoding everything a stream holds.
pub open spec fn chunked_outcome(bytes: Seq<u8>) -> Result<Seq<u8>, Seq<char>> {
    match chunk_result(chunk_finish(chunk_feed(chunk_init(), bytes))) {
        Some(r) => r,
        None => Err(seq![]),
    }
}

/// What is left unread of `rem` once the decoder, reading as many bytes as
/// it asks for at a time, stops asking or the stream ends.
pub open spec fn chunk_run_rest(m: ChunkModel, rem: Seq<u8>) -> Seq<u8>
    decreases rem.len(),
{
    let w = chunk_wants(m) as int;
    if w == 0 || rem.len() == 0 {
        rem
    } else {
        let n = if w < rem.len() {
            w
        } else {
            rem.len() as int
        };
        chunk_run_rest(chunk_feed(m, rem.take(n)), rem.skip(n))
    }
}

pub proof fn lemma_chunk_feed_append(m: ChunkModel, a: Seq<u8>, b: Seq<u8>)
    ensures
        chunk_feed(m, a + b) == chunk_feed(chunk_feed(m, a), b),
    decreases b.len(),
{
    if b.len() == 0 {
        assert(a + b =~= a);
    } else {
        assert((a + b).drop_last() =~= a + b.drop_last());
        assert((a + b).last() == b.last());
        lemma_chunk_feed_append(m, a, b.drop_last());
    }
}

pub proof fn lemma_chunk_feed_done(m: ChunkModel, b: Seq<u8>)
    requires
        chunk_is_done(m),
    ensures
        chunk_feed(m, b) == m,
    decreases b.len(),
{
    if b.len() > 0 {
        lemma_chunk_feed_done(m, b.drop_last());
    }
}

pub proof fn lemma_chunk_finish_done(m: ChunkModel)
    requires
        chunk_bounded(m),
    ensures
        chunk_is_done(chunk_finish(m)),
{
}

/// One chunk as a writer of the chunked coding sends it: its size in
/// hexadecimal, CRLF, its bytes, CRLF.
pub open spec fn chunk_text(c: Seq<u8>) -> Seq<u8> {
    vstd::utf8::encode_utf8(text::hex(c.len())) + seq![13u8, 10u8] + c + seq![13u8, 10u8]
}

/// The chunked coding of `chunks`: each chunk in turn, then the last chunk
/// `0` and an empty trailer.
pub open spec fn chunked_text(chunks: Seq<Seq<u8>>) -> Seq<u8>
    decreases chunks.len(),
{
    if chunks.len() == 0 {
        seq![48u8, 13u8, 10u8, 13u8, 10u8]
    } else {
        chunk_text(chunks[0]) + chunked_text(chunks.drop_first())
    }
}

/// The bytes of `chunks`, one after the other.
pub open spec fn concat_chunks(chunks: Seq<Seq<u8>>) -> Seq<u8>
    decreases chunks.len(),
{
    if chunks.len() == 0 {
        seq![]
    } else {
        chunks[0] + concat_chunks(chunks.drop_first())
    }
}

/// Decoding gives back what the chunked coding encoded: a stream holding
/// the coding of non-empty chunks, followed by anything, decodes to the
/// chunks' bytes.
pub proof fn lemma_chunked_round_trip(chunks: Seq<Seq<u8>>, extra: Seq<u8>)
    requires
        forall|i: int| 0 <= i < chunks.len() ==> 0 < (#[trigger] chunks[i]).len() <= usize::MAX,
    ensures
        chunked_outcome(chunked_text(chunks) + extra) == Ok::<Seq<u8>, Seq<char>>(
            concat_chunks(chunks),
        ),
{
    let m0 = chunk_init();
    lemma_feed_chunks(m0, chunks, seq![]);
    lemma_chunk_feed_append(m0, chunked_text(chunks), extra);
    lemma_chunk_feed_done(chunk_feed(m0, chunked_text(chunks)), extra);
    assert(Seq::<u8>::empty() + concat_chunks(chunks) =~= concat_chunks(chunks));
}

/// Waiting for a size line, with `b` decoded so far.
pub open spec fn at_size_line(m: ChunkModel, b: Seq<u8>) -> bool {
    m.stage == ChunkStage::SizeLine && m.line.len() == 0 && m.body == b
}

proof fn lemma_feed_chunks(m: ChunkModel, chunks: Seq<Seq<u8>>, b: Seq<u8>)
    requires
        at_size_line(m, b),
        forall|i: int| 0 <= i < chunks.len() ==> 0 < (#[trigger] chunks[i]).len() <= usize::MAX,
    ensures
        chunk_feed(m, chunked_text(chunks)).stage == ChunkStage::Done,
        chunk_feed(m, chunked_text(chunks)).body == b + concat_chunks(chunks),
    decreases chunks.len(),
{
    if chunks.len() == 0 {
        lemma_last_chunk(m, b);
        assert(b + concat_chunks(chunks) =~= b);
    } else {
        let c = chunks[0];
        let rest = chunks.drop_first();
        assert(forall|i: int| 0 <= i < rest.len() ==> rest[i] == chunks[i + 1]);
        lemma_chunk_feed_append(m, chunk_text(c), chunked_text(rest));
        lemma_one_chunk(m, b, c);
        lemma_feed_chunks(chunk_feed(m, chunk_text(c)), rest, b + c);
        assert(b + c + concat_chunks(rest) =~= b + concat_chunks(chunks));
    }
}

/// The bytes of the size line of a chunk of `n` bytes.
pub open spec fn size_line(n: nat) -> Seq<u8> {
    vstd::utf8::encode_utf8(text::hex(n)) + seq![13u8, 10u8]
}

/// After the size line of `n`: the data of a non-empty chunk is due, or for
/// `0` the two trailer bytes.
proof fn lemma_size_line(m: ChunkModel, b: Seq<u8>, n: nat)
    requires
        at_size_line(m, b),
        n <= usize::MAX,
    ensures
        ({
            let r = chunk_feed(m, size_line(n));
            &&& r.body == b
            &&& n > 0 ==> r.stage == ChunkStage::Data && r.left == n
            &&& n == 0 ==> r.stage == ChunkStage::Trailer && r.left == 2
        }),
{
    broadcast use vstd::utf8::group_utf8_lib;

    let t = text::hex(n);
    text::lemma_hex_parses(n, usize::MAX as int);
    let w = vstd::utf8::encode_utf8(t);
    assert(vstd::utf8::is_ascii_chars(t)) by {
        assert forall|i: int| 0 <= i < t.len() implies '\0' <= #[trigger] t[i] <= '\u{7f}' by {
            assert('0' <= t[i] <= '9' || 'a' <= t[i] <= 'f');
        }
    }
    assert(w.len() == t.len());
    assert forall|i: int| 0 <= i < w.len() implies #[trigger] w[i] != 10u8 && w[i] != 13u8 by {
        assert(t[i] as u8 == w[i]);
        assert('0' <= t[i] <= '9' || 'a' <= t[i] <= 'f');
    }
    lemma_feed_size_text(m, w);
    let m1 = chunk_feed(m, w);
    let crlf = seq![13u8, 10u8];
    lemma_chunk_feed_append(m, w, crlf);
    assert(crlf.drop_last() =~= seq![13u8]);
    assert(seq![13u8].drop_last() =~= Seq::<u8>::empty());
    let m2 = chunk_on_byte(m1, 13u8);
    lemma_chunk_feed_one(m1, 13u8);
    assert(chunk_feed(m1, crlf) == chunk_on_byte(m2, 10u8));
    assert(m2.line =~= w.push(13u8));
    let line = m2.line.push(10u8);
    assert(line.subrange(0, line.len() - 2) =~= w);
    assert(chunk_size(w) == Ok::<nat, Seq<char>>(n)) by {
        assert(vstd::utf8::decode_utf8(w) == t);
        lemma_next_char_absent(t, ';');
        assert(t.subrange(0, t.len() as int) =~= t);
        assert(!text::is_ws(t[0])) by {
            assert('0' <= t[0] <= '9' || 'a' <= t[0] <= 'f');
        }
        assert(!text::is_ws(t.last())) by {
            assert('0' <= t[t.len() - 1] <= '9' || 'a' <= t[t.len() - 1] <= 'f');
        }
        assert(text::trim_start(t) == t);
        assert(text::trim_end(t) == t);
    }
    assert(size_line(n) == w + crlf);
}

/// `c` never occurs: the search runs to the end.
proof fn lemma_next_char_absent(s: Seq<char>, c: char)
    requires
        forall|i: int| 0 <= i < s.len() ==> ('0' <= #[trigger] s[i] <= '9' || 'a' <= s[i] <= 'f'),
        c == ';',
    ensures
        http::next_char(s, c, 0) == s.len(),
{
    lemma_next_char_absent_from(s, c, 0);
}

proof fn lemma_next_char_absent_from(s: Seq<char>, c: char, k: int)
    requires
        forall|i: int| 0 <= i < s.len() ==> ('0' <= #[trigger] s[i] <= '9' || 'a' <= s[i] <= 'f'),
        c == ';',
        0 <= k,
    ensures
        http::next_char(s, c, k) == s.len(),
    decreases s.len() - k,
{
    if k < s.len() {
        assert('0' <= s[k] <= '9' || 'a' <= s[k] <= 'f');
        lemma_next_char_absent_from(s, c, k + 1);
    }
}

/// Bytes of a size line without CR or LF just accumulate.
proof fn lemma_feed_size_text(m: ChunkModel, w: Seq<u8>)
    requires
        m.stage == ChunkStage::SizeLine,
        m.line.len() == 0,
        w.len() <= 16,
        forall|i: int| 0 <= i < w.len() ==> #[trigger] w[i] != 10u8 && w[i] != 13u8,
    ensures
        chunk_feed(m, w).stage == ChunkStage::SizeLine,
        chunk_feed(m, w).line == w,
        chunk_feed(m, w).body == m.body,
        w.len() > 0 ==> chunk_feed(m, w).last == w.last(),
    decreases w.len(),
{
    if w.len() > 0 {
        let p = w.drop_last();
        assert(forall|i: int| 0 <= i < p.len() ==> p[i] == w[i]);
        lemma_feed_size_text(m, p);
        assert(p.push(w.last()) =~= w);
        assert(w.last() == w[w.len() - 1]);
    }
}

/// The data of a chunk fills it; the terminator is due next.
proof fn lemma_data_feed(m: ChunkModel, c: Seq<u8>)
    requires
        m.stage == ChunkStage::Data,
        0 < m.left,
        c.len() <= m.left,
    ensures
        c.len() < m.left ==> chunk_feed(m, c) == (ChunkModel {
            left: (m.left - c.len()) as nat,
            body: m.body + c,
            ..m
        }),
        c.len() == m.left ==> chunk_feed(m, c).stage == ChunkStage::Terminator && chunk_feed(
            m,
            c,
        ).term.len() == 0 && chunk_feed(m, c).body == m.body + c,
    decreases c.len(),
{
    if c.len() == 0 {
        assert(m.body + c =~= m.body);
    } else {
        lemma_data_feed(m, c.drop_last());
        assert((m.body + c.drop_last()).push(c.last()) =~= m.body + c);
    }
}

/// One chunk is decoded whole; the next size line is due.
proof fn lemma_one_chunk(m: ChunkModel, b: Seq<u8>, c: Seq<u8>)
    requires
        at_size_line(m, b),
        0 < c.len() <= usize::MAX,
    ensures
        at_size_line(chunk_feed(m, chunk_text(c)), b + c),
{
    let crlf = seq![13u8, 10u8];
    let sl = size_line(c.len());
    assert(chunk_text(c) == sl + c + crlf);
    lemma_chunk_feed_append(m, sl + c, crlf);
    lemma_chunk_feed_append(m, sl, c);
    lemma_size_line(m, b, c.len());
    let m1 = chunk_feed(m, sl);
    lemma_data_feed(m1, c);
    let m2 = chunk_feed(m1, c);
    assert(crlf.drop_last() =~= seq![13u8]);
    assert(seq![13u8].drop_last() =~= Seq::<u8>::empty());
    let m3 = chunk_on_byte(m2, 13u8);
    lemma_chunk_feed_one(m2, 13u8);
    assert(m3.term =~= seq![13u8]);
    assert(m3.term.push(10u8) =~= seq![13u8, 10u8]);
    assert(chunk_feed(m2, crlf) == chunk_on_byte(m3, 10u8));
}

/// Feeding one byte is one step.
proof fn lemma_chunk_feed_one(m: ChunkModel, x: u8)
    ensures
        chunk_feed(m, seq![x]) == chunk_on_byte(m, x),
{
    let s = seq![x];
    assert(s.drop_last() =~= Seq::<u8>::empty());
    assert(chunk_feed(m, s.drop_last()) == m);
    assert(s.last() == x);
}

/// The last chunk `0` and an empty trailer end the decoding.
proof fn lemma_last_chunk(m: ChunkModel, b: Seq<u8>)
    requires
        at_size_line(m, b),
    ensures
        chunk_feed(m, seq![48u8, 13u8, 10u8, 13u8, 10u8]).stage == ChunkStage::Done,
        chunk_feed(m, seq![48u8, 13u8, 10u8, 13u8, 10u8]).body == b,
{
    broadcast use vstd::utf8::group_utf8_lib;

    let crlf = seq![13u8, 10u8];
    lemma_size_line(m, b, 0);
    assert(text::hex(0) =~= seq!['0']);
    let t = text::hex(0);
    assert(vstd::utf8::is_ascii_chars(t));
    assert(vstd::utf8::encode_utf8(t) =~= seq![48u8]);
    assert(size_line(0) =~= seq![48u8, 13u8, 10u8]);
    assert(seq![48u8, 13u8, 10u8, 13u8, 10u8] =~= size_line(0) + crlf);
    lemma_chunk_feed_append(m, size_line(0), crlf);
    let m1 = chunk_feed(m, size_line(0));
    assert(crlf.drop_last() =~= seq![13u8]);
    assert(seq![13u8].drop_last() =~= Seq::<u8>::empty());
    lemma_chunk_feed_one(m1, 13u8);
    assert(chunk_feed(m1, crlf) == chunk_on_byte(chunk_on_byte(m1, 13u8), 10u8));
}

/// Decodes the chunked transfer coding one event at a time.
pub struct ChunkedDecoder {
    stage: ChunkStage,
    line: Vec<u8>,
    last: u8,
    left: usize,
    term: Vec<u8>,
    body: Vec<u8>,
    error: String,
}

impl ChunkedDecoder {
    pub closed spec fn model(&self) -> ChunkModel {
        ChunkModel {
            stage: self.stage,
            line: self.line@,
            last: self.last,
            left: self.left as nat,
            term: self.term@,
            body: self.body@,
            error: self.error@,
        }
    }

    pub fn new() -> (d: ChunkedDecoder)
        ensures
            d.model() == chunk_init(),
    {
        ChunkedDecoder {
            stage: ChunkStage::SizeLine,
            line: Vec::new(),
            last: 0,
            left: 0,
            term: Vec::new(),
            body: Vec::new(),
            error: String::new(),
        }
    }

    /// Bytes to request next (0 once finished).
    pub fn wants(&self) -> (n: usize)
        ensures
            n == chunk_wants(self.model()),
    {
        match self.stage {
            ChunkStage::SizeLine => 1,
            ChunkStage::Data => self.left,
            ChunkStage::Terminator => if self.term.len() < 2 {
                2 - self.term.len()
            } else {
                0
            },
            ChunkStage::Trailer => 1,
            _ => 0,
        }
    }

    /// Whether a read that was interrupted is to be retried (the chunk
    /// terminator is read with `read_exact`, which retries).
    pub fn retries_interrupted(&self) -> (b: bool)
        ensures
            b == (self.model().stage == ChunkStage::Terminator),
    {
        self.stage == ChunkStage::Terminator
    }

    pub fn is_done(&self) -> (b: bool)
        ensures
            b == chunk_is_done(self.model()),
    {
        self.stage == ChunkStage::Done || self.stage == ChunkStage::Failed
    }

    pub fn on_byte(&mut self, b: u8)
        ensures
            final(self).model() == chunk_on_byte(old(self).model(), b),
    {
        match self.stage {
            ChunkStage::SizeLine => {
                self.line.push(b);
                if self.line.len() >= 2 && self.last == 13 && b == 10 {
                    let n = self.line.len() - 2;
                    match parse_chunk_size(&self.line, n) {
                        Err(e) => {
                            self.stage = ChunkStage::Failed;
                            self.error = e;
                        },
                        Ok(size) => {
                            if size == 0 {
                                self.stage = ChunkStage::Trailer;
                                self.left = 2;
                            } else {
                                self.stage = ChunkStage::Data;
                                self.left = size;
                            }
                        },
                    }
                } else if self.line.len() > MAX_CHUNK_LINE {
                    self.last = b;
                    self.stage = ChunkStage::Failed;
                    self.error = owned("chunk size line too long");
                } else {
                    self.last = b;
                }
            },
            ChunkStage::Data => {
                self.body.push(b);
                if self.left <= 1 {
                    self.stage = ChunkStage::Terminator;
                    self.left = 0;
                    self.term = Vec::new();
                } else {
                    self.left = self.left - 1;
                }
            },
            ChunkStage::Terminator => {
                self.term.push(b);
                if self.term.len() < 2 {
                } else if self.term[0] == 13 && self.term[1] == 10 && self.term.len() == 2 {
                    assert(self.term@ =~= seq![13u8, 10u8]);
                    self.stage = ChunkStage::SizeLine;
                    self.line = Vec::new();
                    self.last = 0;
                } else {
                    assert(self.term@ != seq![13u8, 10u8]) by {
                        if self.term@ == seq![13u8, 10u8] {
                            assert(self.term@[0] == 13u8);
                        }
                    }
                    self.stage = ChunkStage::Failed;
                    self.error = owned("invalid chunk terminator");
                }
            },
            ChunkStage::Trailer => {
                if self.left <= 1 {
                    self.stage = ChunkStage::Done;
                    self.left = 0;
                } else {
                    self.left = self.left - 1;
                }
            },
            _ => {},
        }
    }

    pub fn on_end(&mut self)
        ensures
            final(self).model() == chunk_on_end(old(self).model()),
    {
        match self.stage {
            ChunkStage::SizeLine => {
                self.stage = ChunkStage::Failed;
                self.error = owned("unexpected EOF in chunked encoding");
            },
            ChunkStage::Data => {
                self.stage = ChunkStage::Failed;
                self.error = owned("unexpected EOF while reading body");
            },
            ChunkStage::Terminator => {
                self.stage = ChunkStage::Failed;
                self.error = concat("read error: ", "failed to fill whole buffer");
            },
            ChunkStage::Trailer => {
                if self.left <= 1 {
                    self.stage = ChunkStage::Done;
                    self.left = 0;
                } else {
                    self.left = self.left - 1;
                }
            },
            _ => {},
        }
    }

    pub fn on_error(&mut self, msg: &str)
        ensures
            final(self).model() == chunk_on_error(old(self).model(), msg@),
    {
        match self.stage {
            ChunkStage::SizeLine | ChunkStage::Data | ChunkStage::Terminator => {
                self.stage = ChunkStage::Failed;
                self.error = concat("read error: ", msg);
            },
            _ => self.on_end(),
        }
    }

    /// Feeds every byte of `bytes` in order.
    pub fn feed(&mut self, bytes: &[u8])
        ensures
            final(self).model() == chunk_feed(old(self).model(), bytes@),
    {
        let ghost start = self.model();
        let mut i: usize = 0;
        while i < bytes.len()
            invariant
                i <= bytes@.len(),
                self.model() == chunk_feed(start, bytes@.take(i as int)),
            decreases bytes@.len() - i,
        {
            self.on_byte(bytes[i]);
            proof {
                assert(bytes@.take(i + 1).drop_last() =~= bytes@.take(i as int));
                assert(bytes@.take(i + 1).last() == bytes@[i as int]);
            }
            i = i + 1;
        }
        assert(bytes@.take(bytes@.len() as int) =~= bytes@);
    }

    /// Reports the end of the stream until the decoder has finished.
    pub fn finish(&mut self)
        ensures
            final(self).model() == chunk_finish(old(self).model()),
    {
        if self.is_done() {
            return;
        }
        self.on_end();
        if self.is_done() {
            return;
        }
        self.on_end();
    }

    /// `Some` once finished: the decoded body, or the error.
    pub fn result(&self) -> (r: Option<Result<Vec<u8>, String>>)
        ensures
            match r {
                None => chunk_result(self.model()) is None,
                Some(Ok(b)) => chunk_result(self.model()) == Some(Ok::<Seq<u8>, Seq<char>>(b@)),
                Some(Err(e)) => chunk_result(self.model()) == Some(Err::<Seq<u8>, Seq<char>>(e@)),
            },
    {
        match self.stage {
            ChunkStage::Done => Some(Ok(self.body.clone())),
            ChunkStage::Failed => Some(Err(owned(self.error.as_str()))),
            _ => None,
        }
    }
}

/// The size announced by the size line `line[..n]`.
fn parse_chunk_size(line: &Vec<u8>, n: usize) -> (r: Result<usize, String>)
    requires
        n <= line@.len(),
    ensures
        match r {
            Ok(size) => chunk_size(line@.subrange(0, n as int)) == Ok::<nat, Seq<char>>(size as nat),
            Err(e) => chunk_size(line@.subrange(0, n as int)) == Err::<nat, Seq<char>>(e@),
        },
{
    let content = vstd::slice::slice_subrange(line.as_slice(), 0, n);
    match utf8_decode(content) {
        None => Err(owned("invalid utf-8 in chunk size")),
        Some(s) => {
            let v = chars_of(s);
            let semi = http::find_char(&v, ';');
            let a = skip_ws_exec(&v, 0, semi);
            let b = skip_ws_back_exec(&v, a, semi);
            proof {
                assert(v@.subrange(0, v@.len() as int) =~= v@);
                text::lemma_skip_ws_is_trim_start(v@, 0, semi as int);
                text::lemma_skip_ws_back_is_trim_end(v@, a as int, semi as int);
                assert(v@.subrange(0, semi as int).subrange(0, semi as int) =~= v@.subrange(0, semi as int));
            }
            match parse_unsigned_range(&v, a, b, 16, usize::MAX as u64) {
                Some(size) => Ok(size as usize),
                None => Err(owned("invalid chunk size")),
            }
        },
    }
}

/// The shape every reachable decoder state has.
pub open spec fn chunk_bounded(m: ChunkModel) -> bool {
    &&& (m.stage == ChunkStage::Trailer ==> 1 <= m.left <= 2)
    &&& (m.stage == ChunkStage::Data ==> m.left > 0)
    &&& (m.stage == ChunkStage::Terminator ==> m.term.len() < 2)
}

pub proof fn lemma_chunk_done_when_no_wants(m: ChunkModel)
    requires
        chunk_bounded(m),
        chunk_wants(m) == 0,
    ensures
        chunk_is_done(m),
{
}

pub proof fn lemma_chunk_feed_bounded(m: ChunkModel, b: Seq<u8>)
    requires
        chunk_bounded(m),
    ensures
        chunk_bounded(chunk_feed(m, b)),
    decreases b.len(),
{
    if b.len() > 0 {
        lemma_chunk_feed_bounded(m, b.drop_last());
    }
}

// ---------------------------------------------------------------------------
// Response bodies
// ---------------------------------------------------------------------------

#[derive(PartialEq, Eq, Structural, Clone, Copy)]
pub enum BodyMode {
    /// A `Content-Length` body with bytes still due.
    Exact,
    /// A chunked body.
    Chunked,
    /// No length given: everything up to the end of the stream.
    ToEnd,
    Done,
    Failed,
}

/// Abstract state of a [`BodyReader`].
pub struct BodyModel {
    pub mode: BodyMode,
    pub left: nat,
    pub body: Seq<u8>,
    pub chunk: ChunkModel,
    pub error: Seq<char>,
}

/// Whether the `Transfer-Encoding` header (the first one, if several)
/// mentions `chunked`, ignoring ASCII case.
pub open spec fn is_chunked(h: Seq<(Seq<char>, Seq<char>)>) -> bool {
    match http::header_value(h, "Transfer-Encoding"@) {
        Some(v) => text::contains_seq(text::ascii_lower(v), "chunked"@),
        None => false,
    }
}

/// How a body is read, given the bytes `rest` already received after the
/// header section: a `Content-Length` header decides the length (and must be
/// a decimal number); otherwise a chunked `Transfer-Encoding` is decoded;
/// otherwise the body runs to the end of the stream.
pub open spec fn body_start(rest: Seq<u8>, h: Seq<(Seq<char>, Seq<char>)>) -> BodyModel {
    match http::header_value(h, "Content-Length"@) {
        Some(v) => match text::parse_unsigned(v, 10, usize::MAX as int) {
            None => BodyModel {
                mode: BodyMode::Failed,
                left: 0,
                body: seq![],
                chunk: chunk_init(),
                error: "invalid Content-Length"@,
            },
            Some(len) => if rest.len() < len {
                BodyModel {
                    mode: BodyMode::Exact,
                    left: (len - rest.len()) as nat,
                    body: rest,
                    chunk: chunk_init(),
                    error: seq![],
                }
            } else {
                BodyModel { mode: BodyMode::Done, left: 0, body: rest, chunk: chunk_init(), error: seq![] }
            },
        },
        None => if is_chunked(h) {
            BodyModel {
                mode: BodyMode::Chunked,
                left: 0,
                body: seq![],
                chunk: chunk_feed(chunk_init(), rest),
                error: seq![],
            }
        } else {
            BodyModel { mode: BodyMode::ToEnd, left: 0, body: rest, chunk: chunk_init(), error: seq![] }
        },
    }
}

pub open spec fn body_on_byte(m: BodyModel, b: u8) -> BodyModel {
    match m.mode {
        BodyMode::Exact => if m.left <= 1 {
            BodyModel { mode: BodyMode::Done, left: 0, body: m.body.push(b), ..m }
        } else {
            BodyModel { left: (m.left - 1) as nat, body: m.body.push(b), ..m }
        },
        BodyMode::ToEnd => BodyModel { body: m.body.push(b), ..m },
        BodyMode::Chunked => BodyModel { chunk: chunk_on_byte(m.chunk, b), ..m },
        _ => m,
    }
}

pub open spec fn body_on_end(m: BodyModel) -> BodyModel {
    match m.mode {
        BodyMode::Exact => BodyModel {
            mode: BodyMode::Failed,
            error: "unexpected EOF while reading body"@,
            ..m
        },
        BodyMode::ToEnd => BodyModel { mode: BodyMode::Done, ..m },
        BodyMode::Chunked => BodyModel { chunk: chunk_on_end(m.chunk), ..m },
        _ => m,
    }
}

pub open spec fn body_on_error(m: BodyModel, msg: Seq<char>) -> BodyModel {
    match m.mode {
        BodyMode::Exact | BodyMode::ToEnd => BodyModel {
            mode: BodyMode::Failed,
            error: read_error_text(msg),
            ..m
        },
        BodyMode::Chunked => BodyModel { chunk: chunk_on_error(m.chunk, msg), ..m },
        _ => m,
    }
}

pub open spec fn body_is_done(m: BodyModel) -> bool {
    ||| m.mode == BodyMode::Done
    ||| m.mode == BodyMode::Failed
    ||| (m.mode == BodyMode::Chunked && chunk_is_done(m.chunk))
}

pub open spec fn body_wants(m: BodyModel) -> nat {
    match m.mode {
        BodyMode::Exact => m.left,
        BodyMode::ToEnd => EOF_READ_SIZE as nat,
        BodyMode::Chunked => chunk_wants(m.chunk),
        _ => 0,
    }
}

pub open spec fn body_feed(m: BodyModel, bytes: Seq<u8>) -> BodyModel
    decreases bytes.len(),
{
    if bytes.len() == 0 {
        m
    } else {
        body_on_byte(body_feed(m, bytes.drop_last()), bytes.last())
    }
}

pub open spec fn body_finish(m: BodyModel) -> BodyModel {
    if body_is_done(m) {
        m
    } else if body_is_done(body_on_end(m)) {
        body_on_end(m)
    } else {
        body_on_end(body_on_end(m))
    }
}

pub open spec fn body_result(m: BodyModel) -> Option<Result<Seq<u8>, Seq<char>>> {
    match m.mode {
        BodyMode::Done => Some(Ok(m.body)),
        BodyMode::Failed => Some(Err(m.error)),
        BodyMode::Chunked => chunk_result(m.chunk),
        _ => None,
    }
}

pub open spec fn body_bounded(m: BodyModel) -> bool {
    &&& (m.mode == BodyMode::Chunked ==> chunk_bounded(m.chunk))
    &&& (m.mode == BodyMode::Exact ==> m.left > 0)
}

/// The outcome of reading a body whose stream still holds `bytes`.
pub open spec fn body_outcome(
    rest: Seq<u8>,
    h: Seq<(Seq<char>, Seq<char>)>,
    bytes: Seq<u8>,
) -> Result<Seq<u8>, Seq<char>> {
    match body_result(body_finish(body_feed(body_start(rest, h), bytes))) {
        Some(r) => r,
        None => Err(seq![]),
    }
}

/// What is left unread of `rem` once the body reader, reading as many bytes
/// as it asks for at a time, stops asking or the stream ends.
pub open spec fn body_run_rest(m: BodyModel, rem: Seq<u8>) -> Seq<u8>
    decreases rem.len(),
{
    let w = body_wants(m) as int;
    if w == 0 || rem.len() == 0 {
        rem
    } else {
        let n = if w < rem.len() {
            w
        } else {
            rem.len() as int
        };
        body_run_rest(body_feed(m, rem.take(n)), rem.skip(n))
    }
}

pub proof fn lemma_body_feed_append(m: BodyModel, a: Seq<u8>, b: Seq<u8>)
    ensures
        body_feed(m, a + b) == body_feed(body_feed(m, a), b),
    decreases b.len(),
{
    if b.len() == 0 {
        assert(a + b =~= a);
    } else {
        assert((a + b).drop_last() =~= a + b.drop_last());
        assert((a + b).last() == b.last());
        lemma_body_feed_append(m, a, b.drop_last());
    }
}

pub proof fn lemma_body_feed_done(m: BodyModel, b: Seq<u8>)
    requires
        body_is_done(m),
    ensures
        body_feed(m, b) == m,
    decreases b.len(),
{
    if b.len() > 0 {
        lemma_body_feed_done(m, b.drop_last());
    }
}

/// A `Content-Length` body is read back exactly, however it is split
/// between the bytes that came with the header section and the rest of the
/// stream; bytes after it are not read into it.
pub proof fn lemma_content_length_body(
    h: Seq<(Seq<char>, Seq<char>)>,
    body: Seq<u8>,
    k: int,
    extra: Seq<u8>,
)
    requires
        http::header_value(h, "Content-Length"@) == Some(text::decimal(body.len())),
        body.len() <= usize::MAX,
        0 <= k <= body.len(),
    ensures
        body_outcome(body.take(k), h, body.skip(k) + extra) == Ok::<Seq<u8>, Seq<char>>(body),
{
    text::lemma_decimal_parses(body.len(), usize::MAX as int);
    let m0 = body_start(body.take(k), h);
    let rest = body.skip(k);
    lemma_body_feed_append(m0, rest, extra);
    if k == body.len() {
        assert(body.take(k) =~= body);
        lemma_body_feed_done(m0, rest + extra);
    } else {
        lemma_exact_feed(m0, rest);
        assert(body.take(k) + rest =~= body);
        lemma_body_feed_done(body_feed(m0, rest), extra);
    }
}

/// Bytes fed to a body read to the end of the stream are appended to it.
proof fn lemma_to_end_feed(m: BodyModel, bytes: Seq<u8>)
    requires
        m.mode == BodyMode::ToEnd,
    ensures
        body_feed(m, bytes) == (BodyModel { body: m.body + bytes, ..m }),
    decreases bytes.len(),
{
    if bytes.len() == 0 {
        assert(m.body + bytes =~= m.body);
    } else {
        lemma_to_end_feed(m, bytes.drop_last());
        assert(m.body + bytes.drop_last() + seq![bytes.last()] =~= m.body + bytes);
        assert((m.body + bytes.drop_last()).push(bytes.last()) =~= m.body + bytes);
    }
}

/// Without `Content-Length` and without the chunked coding, the body is
/// everything after the header section, up to the end of the stream.
pub proof fn lemma_to_end_body(h: Seq<(Seq<char>, Seq<char>)>, rest: Seq<u8>, more: Seq<u8>)
    requires
        http::header_value(h, "Content-Length"@) is None,
        !is_chunked(h),
    ensures
        body_outcome(rest, h, more) == Ok::<Seq<u8>, Seq<char>>(rest + more),
{
    let m0 = body_start(rest, h);
    lemma_to_end_feed(m0, more);
}

/// A chunked body is decoded back to its chunks' bytes, however the coding
/// is split between the bytes that came with the header section and the
/// rest of the stream.
pub proof fn lemma_chunked_body(
    h: Seq<(Seq<char>, Seq<char>)>,
    chunks: Seq<Seq<u8>>,
    extra: Seq<u8>,
    k: int,
)
    requires
        http::header_value(h, "Content-Length"@) is None,
        is_chunked(h),
        forall|i: int| 0 <= i < chunks.len() ==> 0 < (#[trigger] chunks[i]).len() <= usize::MAX,
        0 <= k <= (chunked_text(chunks) + extra).len(),
    ensures
        ({
            let t = chunked_text(chunks) + extra;
            body_outcome(t.take(k), h, t.skip(k)) == Ok::<Seq<u8>, Seq<char>>(concat_chunks(chunks))
        }),
{
    let t = chunked_text(chunks) + extra;
    let m0 = body_start(t.take(k), h);
    lemma_chunked_round_trip(chunks, extra);
    lemma_body_feed_chunked(m0, t.skip(k));
    lemma_chunk_feed_append(chunk_init(), t.take(k), t.skip(k));
    assert(t.take(k) + t.skip(k) =~= t);
}

/// A chunked body reader passes every byte to its decoder.
proof fn lemma_body_feed_chunked(m: BodyModel, b: Seq<u8>)
    requires
        m.mode == BodyMode::Chunked,
    ensures
        body_feed(m, b) == (BodyModel { chunk: chunk_feed(m.chunk, b), ..m }),
    decreases b.len(),
{
    if b.len() > 0 {
        lemma_body_feed_chunked(m, b.drop_last());
    }
}

/// Feeding an `Exact` reader the bytes it still wants finishes it with them
/// appended; fewer bytes leave it waiting for the remainder.
proof fn lemma_exact_feed(m: BodyModel, b: Seq<u8>)
    requires
        m.mode == BodyMode::Exact,
        0 < m.left,
        b.len() <= m.left,
    ensures
        b.len() < m.left ==> body_feed(m, b) == (BodyModel {
            left: (m.left - b.len()) as nat,
            body: m.body + b,
            ..m
        }),
        b.len() == m.left ==> body_feed(m, b) == (BodyModel {
            mode: BodyMode::Done,
            left: 0,
            body: m.body + b,
            ..m
        }),
    decreases b.len(),
{
    if b.len() == 0 {
        assert(m.body + b =~= m.body);
    } else {
        lemma_exact_feed(m, b.drop_last());
        assert(m.body + b.drop_last() + seq![b.last()] =~= m.body + b);
        assert((m.body + b.drop_last()).push(b.last()) =~= m.body + b);
    }
}

pub proof fn lemma_body_feed_bounded(m: BodyModel, b: Seq<u8>)
    requires
        body_bounded(m),
    ensures
        body_bounded(body_feed(m, b)),
    decreases b.len(),
{
    if b.len() > 0 {
        lemma_body_feed_bounded(m, b.drop_last());
    }
}

/// Reads a response body as `Content-Length`, chunked coding or end of
/// stream dictate.
pub struct BodyReader {
    mode: BodyMode,
    left: usize,
    body: Vec<u8>,
    chunk: ChunkedDecoder,
    error: String,
}

impl BodyReader {
    pub closed spec fn model(&self) -> BodyModel {
        BodyModel {
            mode: self.mode,
            left: self.left as nat,
            body: self.body@,
            chunk: self.chunk.model(),
            error: self.error@,
        }
    }

    /// Starts reading a body with response headers `headers`, of which the
    /// bytes `rest` were already received.
    pub fn new(rest: &[u8], headers: &[(String, String)]) -> (r: BodyReader)
        ensures
            r.model() == body_start(rest@, http::headers_view(headers@)),
            body_bounded(r.model()),
    {
        let rest_vec = vstd::slice::slice_to_vec(rest);
        match header_lookup(headers, "Content-Length") {
            Some(len_str) => {
                let v = chars_of(len_str);
                let parsed = parse_unsigned_range(&v, 0, v.len(), 10, usize::MAX as u64);
                proof {
                    assert(v@.subrange(0, v@.len() as int) =~= v@);
                }
                match parsed {
                    None => BodyReader {
                        mode: BodyMode::Failed,
                        left: 0,
                        body: Vec::new(),
                        chunk: ChunkedDecoder::new(),
                        error: owned("invalid Content-Length"),
                    },
                    Some(len) => {
                        let len = len as usize;
                        if rest_vec.len() < len {
                            BodyReader {
                                mode: BodyMode::Exact,
                                left: len - rest_vec.len(),
                                body: rest_vec,
                                chunk: ChunkedDecoder::new(),
                                error: String::new(),
                            }
                        } else {
                            BodyReader {
                                mode: BodyMode::Done,
                                left: 0,
                                body: rest_vec,
                                chunk: ChunkedDecoder::new(),
                                error: String::new(),
                            }
                        }
                    },
                }
            },
            None => {
                let chunked = match header_lookup(headers, "Transfer-Encoding") {
                    Some(te) => {
                        let tv = chars_of(te);
                        let lowered = lower_range(&tv, 0, tv.len());
                        let pat = chars_of("chunked");
                        proof {
                            assert(tv@.subrange(0, tv@.len() as int) =~= tv@);
                        }
                        contains_chars(&lowered, &pat)
                    },
                    None => false,
                };
                if chunked {
                    let mut d = ChunkedDecoder::new();
                    d.feed(rest);
                    proof {
                        lemma_chunk_feed_bounded(chunk_init(), rest@);
                    }
                    BodyReader {
                        mode: BodyMode::Chunked,
                        left: 0,
                        body: Vec::new(),
                        chunk: d,
                        error: String::new(),
                    }
                } else {
                    BodyReader {
                        mode: BodyMode::ToEnd,
                        left: 0,
                        body: rest_vec,
                        chunk: ChunkedDecoder::new(),
                        error: String::new(),
                    }
                }
            },
        }
    }

    /// Bytes to request next (0 once finished).
    pub fn wants(&self) -> (n: usize)
        ensures
            n == body_wants(self.model()),
    {
        match self.mode {
            BodyMode::Exact => self.left,
            BodyMode::ToEnd => EOF_READ_SIZE,
            BodyMode::Chunked => self.chunk.wants(),
            _ => 0,
        }
    }

    /// Whether an interrupted read is to be retried rather than reported.
    pub fn retries_interrupted(&self) -> (b: bool)
        ensures
            b == (self.model().mode == BodyMode::Chunked && self.model().chunk.stage
                == ChunkStage::Terminator),
    {
        match self.mode {
            BodyMode::Chunked => self.chunk.retries_interrupted(),
            _ => false,
        }
    }

    pub fn is_done(&self) -> (b: bool)
        ensures
            b == body_is_done(self.model()),
    {
        match self.mode {
            BodyMode::Done | BodyMode::Failed => true,
            BodyMode::Chunked => self.chunk.is_done(),
            _ => false,
        }
    }

    pub fn on_byte(&mut self, b: u8)
        ensures
            final(self).model() == body_on_byte(old(self).model(), b),
    {
        match self.mode {
            BodyMode::Exact => {
                self.body.push(b);
                if self.left <= 1 {
                    self.mode = BodyMode::Done;
                    self.left = 0;
                } else {
                    self.left = self.left - 1;
                }
            },
            BodyMode::ToEnd => {
                self.body.push(b);
            },
            BodyMode::Chunked => {
                self.chunk.on_byte(b);
            },
            _ => {},
        }
    }

    /// Feeds every byte of `bytes` in order.
    pub fn feed(&mut self, bytes: &[u8])
        ensures
            final(self).model() == body_feed(old(self).model(), bytes@),
    {
        let ghost start = self.model();
        let mut i: usize = 0;
        while i < bytes.len()
            invariant
                i <= bytes@.len(),
                self.model() == body_feed(start, bytes@.take(i as int)),
            decreases bytes@.len() - i,
        {
            self.on_byte(bytes[i]);
            proof {
                assert(bytes@.take(i + 1).drop_last() =~= bytes@.take(i as int));
                assert(bytes@.take(i + 1).last() == bytes@[i as int]);
            }
            i = i + 1;
        }
        assert(bytes@.take(bytes@.len() as int) =~= bytes@);
    }

    pub fn on_end(&mut self)
        ensures
            final(self).model() == body_on_end(old(self).model()),
    {
        match self.mode {
            BodyMode::Exact => {
                self.mode = BodyMode::Failed;
                self.error = owned("unexpected EOF while reading body");
            },
            BodyMode::ToEnd => {
                self.mode = BodyMode::Done;
            },
            BodyMode::Chunked => {
                self.chunk.on_end();
            },
            _ => {},
        }
    }

    pub fn on_error(&mut self, msg: &str)
        ensures
            final(self).model() == body_on_error(old(self).model(), msg@),
    {
        match self.mode {
            BodyMode::Exact | BodyMode::ToEnd => {
                self.mode = BodyMode::Failed;
                self.error = concat("read error: ", msg);
            },
            BodyMode::Chunked => {
                self.chunk.on_error(msg);
            },
            _ => {},
        }
    }

    /// Reports the end of the stream until the reader has finished.
    pub fn finish(&mut self)
        ensures
            final(self).model() == body_finish(old(self).model()),
    {
        if self.is_done() {
            return;
        }
        self.on_end();
        if self.is_done() {
            return;
        }
        self.on_end();
    }

    /// `Some` once finished: the body, or the error.
    pub fn result(&self) -> (r: Option<Result<Vec<u8>, String>>)
        ensures
            match r {
                None => body_result(self.model()) is None,
                Some(Ok(b)) => body_result(self.model()) == Some(Ok::<Seq<u8>, Seq<char>>(b@)),
                Some(Err(e)) => body_result(self.model()) == Some(Err::<Seq<u8>, Seq<char>>(e@)),
            },
    {
        match self.mode {
            BodyMode::Done => Some(Ok(self.body.clone())),
            BodyMode::Failed => Some(Err(owned(self.error.as_str()))),
            BodyMode::Chunked => self.chunk.result(),
            _ => None,
        }
    }
}

// ---------------------------------------------------------------------------
// The readers run over in-memory streams
// ---------------------------------------------------------------------------

/// Header collection over a stream holding `rem`, read 1024 bytes at a time.
pub open spec fn header_run(m: HeaderModel, rem: Seq<u8>) -> HeaderModel
    decreases rem.len(),
{
    if m.stage != ScanStage::Pending {
        m
    } else if rem.len() == 0 {
        header_on_end(m)
    } else {
        let n = if rem.len() < HEADER_READ_SIZE {
            rem.len() as int
        } else {
            HEADER_READ_SIZE as int
        };
        header_run(header_on_chunk(m, rem.take(n)), rem.skip(n))
    }
}

/// What header collection from `m` leaves unread of a stream holding `rem`.
pub open spec fn header_run_rest(m: HeaderModel, rem: Seq<u8>) -> Seq<u8>
    decreases rem.len(),
{
    if m.stage != ScanStage::Pending || rem.len() == 0 {
        rem
    } else {
        let n = if rem.len() < HEADER_READ_SIZE {
            rem.len() as int
        } else {
            HEADER_READ_SIZE as int
        };
        header_run_rest(header_on_chunk(m, rem.take(n)), rem.skip(n))
    }
}

/// Read from stream until we see \r\n\r\n, returning the position after the headers.
pub fn read_until_double_crlf(stream: &mut ByteCursor, buf: &mut Vec<u8>) -> (r: Result<usize, String>)
    ensures
        ({
            let m = header_run(header_start(old(buf)@), old(stream).remaining());
            &&& final(buf)@ == m.buf
            &&& final(stream).remaining() == header_run_rest(
                header_start(old(buf)@),
                old(stream).remaining(),
            )
            &&& match r {
                Ok(p) => header_result(m) == Some(Ok::<int, Seq<char>>(p as int)),
                Err(e) => header_result(m) == Some(Err::<int, Seq<char>>(e@)),
            }
        }),
        final(stream).contents() == old(stream).contents(),
{
    let ghost target = header_run(header_start(buf@), stream.remaining());
    let ghost target_rest = header_run_rest(header_start(buf@), stream.remaining());
    let ghost all = stream.contents();
    let mut start: Vec<u8> = Vec::new();
    std::mem::swap(&mut start, buf);
    let mut c = HeaderCollector::new(start);
    loop
        invariant
            header_run(c.model(), stream.remaining()) == target,
            header_run_rest(c.model(), stream.remaining()) == target_rest,
            stream.contents() == all,
        ensures
            c.model().stage != ScanStage::Pending,
            header_run(c.model(), stream.remaining()) == target,
            header_run_rest(c.model(), stream.remaining()) == target_rest,
            stream.contents() == all,
        decreases stream.remaining().len(), (if c.model().stage == ScanStage::Pending {
            1int
        } else {
            0int
        }),
    {
        let want = c.wants();
        if want == 0 {
            break;
        }
        let chunk = stream.read(want);
        if chunk.len() == 0 {
            c.on_end();
        } else {
            c.on_chunk(chunk.as_slice());
        }
    }
    assert(c.model().stage != ScanStage::Pending);
    assert(header_run(c.model(), stream.remaining()) == c.model());
    let r = c.result();
    *buf = c.into_buf();
    match r {
        Some(res) => res,
        None => Err(String::new()),
    }
}

/// Read exactly `len` bytes from the stream.
pub fn read_exact_len(stream: &mut ByteCursor, len: usize) -> (r: Result<Vec<u8>, String>)
    ensures
        old(stream).remaining().len() >= len ==> r == Ok::<Vec<u8>, String>(r->Ok_0) && r->Ok_0@
            == old(stream).remaining().take(len as int) && final(stream).remaining() == old(
            stream,
        ).remaining().skip(len as int),
        old(stream).remaining().len() < len ==> r is Err && r->Err_0@
            == "unexpected EOF while reading body"@ && final(stream).remaining().len() == 0,
        final(stream).contents() == old(stream).contents(),
{
    let out = stream.read(len);
    if out.len() < len {
        return Err(owned("unexpected EOF while reading body"));
    }
    Ok(out)
}

/// Read a chunked-encoded body from the stream.
pub fn read_chunked(stream: &mut ByteCursor) -> (r: Result<Vec<u8>, String>)
    ensures
        match r {
            Ok(b) => chunked_outcome(old(stream).remaining()) == Ok::<Seq<u8>, Seq<char>>(b@),
            Err(e) => chunked_outcome(old(stream).remaining()) == Err::<Seq<u8>, Seq<char>>(e@),
        },
        final(stream).remaining() == chunk_run_rest(chunk_init(), old(stream).remaining()),
        final(stream).contents() == old(stream).contents(),
{
    let ghost input = stream.remaining();
    let ghost all = stream.contents();
    let mut d = ChunkedDecoder::new();
    loop
        invariant
            chunk_feed(d.model(), stream.remaining()) == chunk_feed(chunk_init(), input),
            chunk_run_rest(d.model(), stream.remaining()) == chunk_run_rest(chunk_init(), input),
            chunk_bounded(d.model()),
            stream.contents() == all,
        ensures
            d.model() == chunk_feed(chunk_init(), input),
            stream.remaining() == chunk_run_rest(chunk_init(), input),
            chunk_bounded(d.model()),
            stream.contents() == all,
        decreases stream.remaining().len(),
    {
        let want = d.wants();
        if want == 0 {
            proof {
                lemma_chunk_done_when_no_wants(d.model());
                lemma_chunk_feed_done(d.model(), stream.remaining());
            }
            break;
        }
        let ghost before = stream.remaining();
        let chunk = stream.read(want);
        if chunk.len() == 0 {
            assert(before.len() == 0);
            assert(chunk_feed(d.model(), before) == d.model());
            break;
        }
        let ghost dm = d.model();
        d.feed(chunk.as_slice());
        proof {
            assert(before =~= chunk@ + stream.remaining());
            assert(before.take(chunk@.len() as int) == chunk@);
            assert(before.skip(chunk@.len() as int) == stream.remaining());
            lemma_chunk_feed_append(dm, chunk@, stream.remaining());
            lemma_chunk_feed_bounded(dm, chunk@);
        }
    }
    d.finish();
    proof {
        lemma_chunk_finish_done(chunk_feed(chunk_init(), input));
    }
    match d.result() {
        Some(res) => res,
        None => Err(String::new()),
    }
}

/// Read an HTTP response body from a stream, handling Content-Length, Transfer-Encoding, and EOF.
pub fn read_http_body(stream: &mut ByteCursor, rest: &[u8], headers: &[(String, String)]) -> (r:
    Result<Vec<u8>, String>)
    ensures
        match r {
            Ok(b) => body_outcome(rest@, http::headers_view(headers@), old(stream).remaining())
                == Ok::<Seq<u8>, Seq<char>>(b@),
            Err(e) => body_outcome(rest@, http::headers_view(headers@), old(stream).remaining())
                == Err::<Seq<u8>, Seq<char>>(e@),
        },
        final(stream).remaining() == body_run_rest(
            body_start(rest@, http::headers_view(headers@)),
            old(stream).remaining(),
        ),
        final(stream).contents() == old(stream).contents(),
{
    let ghost input = stream.remaining();
    let ghost all = stream.contents();
    let ghost m0 = body_start(rest@, http::headers_view(headers@));
    let mut reader = BodyReader::new(rest, headers);
    loop
        invariant
            body_feed(reader.model(), stream.remaining()) == body_feed(m0, input),
            body_run_rest(reader.model(), stream.remaining()) == body_run_rest(m0, input),
            body_bounded(reader.model()),
            stream.contents() == all,
        ensures
            reader.model() == body_feed(m0, input),
            stream.remaining() == body_run_rest(m0, input),
            body_bounded(reader.model()),
            stream.contents() == all,
        decreases stream.remaining().len(),
    {
        let want = reader.wants();
        if want == 0 {
            proof {
                lemma_body_done_when_no_wants(reader.model());
                lemma_body_feed_done(reader.model(), stream.remaining());
            }
            break;
        }
        let ghost before = stream.remaining();
        let chunk = stream.read(want);
        if chunk.len() == 0 {
            assert(before.len() == 0);
            assert(body_feed(reader.model(), before) == reader.model());
            break;
        }
        let ghost rm = reader.model();
        reader.feed(chunk.as_slice());
        proof {
            assert(before =~= chunk@ + stream.remaining());
            assert(before.take(chunk@.len() as int) == chunk@);
            assert(before.skip(chunk@.len() as int) == stream.remaining());
            lemma_body_feed_append(rm, chunk@, stream.remaining());
            lemma_body_feed_bounded(rm, chunk@);
        }
    }
    reader.finish();
    proof {
        lemma_body_finish_done(body_feed(m0, input));
    }
    match reader.result() {
        Some(res) => res,
        None => Err(String::new()),
    }
}

/// The response read from a stream holding `input`: the header section up
/// to the blank line, its status line and headers, then the body as the
/// headers describe it; or the first error.
pub open spec fn response_outcome(input: Seq<u8>) -> Result<
    (u16, Seq<(Seq<char>, Seq<char>)>, Seq<u8>),
    Seq<char>,
> {
    let m = header_run(header_start(seq![]), input);
    let left = header_run_rest(header_start(seq![]), input);
    match header_result(m) {
        Some(Ok(p)) => match http::response_head(m.buf.take(p)) {
            Err(e) => Err(e),
            Ok((status, h)) => match body_outcome(m.buf.skip(p), h, left) {
                Ok(b) => Ok((status, h, b)),
                Err(e) => Err(e),
            },
        },
        Some(Err(e)) => Err(e),
        None => Err(seq![]),
    }
}

fn bytes_range(v: &Vec<u8>, lo: usize, hi: usize) -> (r: Vec<u8>)
    requires
        lo <= hi <= v@.len(),
    ensures
        r@ == v@.subrange(lo as int, hi as int),
{
    let mut r: Vec<u8> = Vec::new();
    let mut i: usize = lo;
    while i < hi
        invariant
            lo <= i <= hi <= v@.len(),
            r@ == v@.subrange(lo as int, i as int),
        decreases hi - i,
    {
        r.push(v[i]);
        assert(v@.subrange(lo as int, i + 1) =~= v@.subrange(lo as int, i as int).push(v@[i as int]));
        i = i + 1;
    }
    r
}

/// What reading a response leaves unread of a stream holding `input`.
pub open spec fn response_rest(input: Seq<u8>) -> Seq<u8> {
    let m = header_run(header_start(seq![]), input);
    let left = header_run_rest(header_start(seq![]), input);
    match header_result(m) {
        Some(Ok(p)) => match http::response_head(m.buf.take(p)) {
            Ok((_, h)) => body_run_rest(body_start(m.buf.skip(p), h), left),
            Err(_) => left,
        },
        _ => left,
    }
}

/// Reads a whole response from the stream: status, headers and body.
pub fn read_response(stream: &mut ByteCursor) -> (r: Result<http::Response, String>)
    ensures
        final(stream).remaining() == response_rest(old(stream).remaining()),
        final(stream).contents() == old(stream).contents(),
        match r {
            Ok(resp) => response_outcome(old(stream).remaining()) == Ok::<
                (u16, Seq<(Seq<char>, Seq<char>)>, Seq<u8>),
                Seq<char>,
            >((resp.status, http::headers_view(resp.headers@), resp.body@)),
            Err(e) => response_outcome(old(stream).remaining()) == Err::<
                (u16, Seq<(Seq<char>, Seq<char>)>, Seq<u8>),
                Seq<char>,
            >(e@),
        },
{
    let ghost input = stream.remaining();
    let mut buf: Vec<u8> = Vec::new();
    let end = match read_until_double_crlf(stream, &mut buf) {
        Ok(p) => p,
        Err(e) => return Err(e),
    };
    proof {
        let m = header_run(header_start(seq![]), input);
        lemma_header_run_end_in_buf(header_start(seq![]), input);
        assert(m.buf == buf@);
    }
    let n = buf.len();
    let head = bytes_range(&buf, 0, end);
    let rest = bytes_range(&buf, end, n);
    proof {
        assert(head@ =~= buf@.take(end as int));
        assert(rest@ =~= buf@.skip(end as int));
    }
    let (status, headers) = match http::parse_response_head(head.as_slice()) {
        Ok(x) => x,
        Err(e) => return Err(e),
    };
    let body = match read_http_body(stream, rest.as_slice(), headers.as_slice()) {
        Ok(b) => b,
        Err(e) => return Err(e),
    };
    Ok(http::Response { status, headers, body })
}

/// A completed header section ends inside the collected bytes.
pub proof fn lemma_header_run_end_in_buf(m: HeaderModel, rem: Seq<u8>)
    requires
        m.stage == ScanStage::Complete ==> 0 <= m.end <= m.buf.len(),
    ensures
        header_run(m, rem).stage == ScanStage::Complete ==> 0 <= header_run(m, rem).end
            <= header_run(m, rem).buf.len(),
    decreases rem.len(),
{
    if m.stage == ScanStage::Pending && rem.len() > 0 {
        let n = if rem.len() < HEADER_READ_SIZE {
            rem.len() as int
        } else {
            HEADER_READ_SIZE as int
        };
        let m2 = header_on_chunk(m, rem.take(n));
        if m2.stage == ScanStage::Complete {
            http::lemma_blank_line_from(m.buf + rem.take(n), 0);
        }
        lemma_header_run_end_in_buf(m2, rem.skip(n));
    }
}

pub proof fn lemma_body_done_when_no_wants(m: BodyModel)
    requires
        body_wants(m) == 0,
        body_bounded(m),
    ensures
        body_is_done(m),
{
}

pub proof fn lemma_body_finish_done(m: BodyModel)
    requires
        body_bounded(m),
    ensures
        body_result(body_finish(m)) is Some,
{
}

} // verus!
