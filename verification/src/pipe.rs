//! Windows named pipes: pipe paths, the request bytes, and the small rules
//! of the pipe client (wait timeouts, error text, worker rotation).
use vstd::prelude::*;
use crate::http;
use crate::text;

verus! {

/// The namespace prefix of a named pipe path, `\\.\pipe\`.
pub open spec fn pipe_prefix() -> Seq<char> {
    seq!['\\', '\\', '.', '\\', 'p', 'i', 'p', 'e', '\\']
}

pub open spec fn has_pipe_prefix(name: Seq<char>) -> bool {
    name.len() >= 9 && name.subrange(0, 9) == pipe_prefix()
}

fn pipe_prefix_chars() -> (v: Vec<char>)
    ensures
        v@ == pipe_prefix(),
{
    let v = vec!['\\', '\\', '.', '\\', 'p', 'i', 'p', 'e', '\\'];
    assert(v@ =~= pipe_prefix());
    v
}

fn starts_with_pipe_prefix(v: &Vec<char>) -> (b: bool)
    ensures
        b == has_pipe_prefix(v@),
{
    let p = pipe_prefix_chars();
    if v.len() < 9 {
        return false;
    }
    let mut i: usize = 0;
    while i < 9
        invariant
            i <= 9,
            v@.len() >= 9,
            p@ == pipe_prefix(),
            forall|j: int| 0 <= j < i ==> v@[j] == p@[j],
        decreases 9 - i,
    {
        if v[i] != p[i] {
            assert(v@.subrange(0, 9)[i as int] != pipe_prefix()[i as int]);
            return false;
        }
        i = i + 1;
    }
    assert(v@.subrange(0, 9) =~= pipe_prefix());
    true
}

/// The full path of a pipe: names already in the pipe namespace are kept,
/// others get the `\\.\pipe\` prefix.
pub fn normalize_pipe_path(pipe_name: &str) -> (p: String)
    ensures
        p@ == (if has_pipe_prefix(pipe_name@) {
            pipe_name@
        } else {
            pipe_prefix() + pipe_name@
        }),
{
    let v = text::chars_of(pipe_name);
    if starts_with_pipe_prefix(&v) {
        text::owned(pipe_name)
    } else {
        let pv = pipe_prefix_chars();
        let prefix = text::string_from_chars(&pv);
        text::concat(prefix.as_str(), pipe_name)
    }
}

/// The pipe name without the `\\.\pipe\` prefix, when it has one.
pub fn strip_pipe_prefix(pipe_name: &str) -> (p: String)
    ensures
        p@ == (if has_pipe_prefix(pipe_name@) {
            pipe_name@.subrange(9, pipe_name@.len() as int)
        } else {
            pipe_name@
        }),
{
    let v = text::chars_of(pipe_name);
    if starts_with_pipe_prefix(&v) {
        text::string_from_range(&v, 9, v.len())
    } else {
        text::owned(pipe_name)
    }
}

/// The request sent over a pipe: default headers use `pipe` as host.
pub fn build_request(method: &str, path: &str, headers: Vec<(String, String)>, body: &[u8]) -> (req:
    Vec<u8>)
    ensures
        req@ == http::request_bytes(method@, path@, http::headers_view(headers@), body@, "pipe"@),
{
    let ghost h0 = http::headers_view(headers@);
    let mut headers = headers;
    http::add_default_headers(&mut headers, body, "pipe");
    let req = http::build_request(method, path, headers, body);
    proof {
        http::lemma_default_headers_idempotent(h0, body@.len(), "pipe"@, "localhost"@);
    }
    req
}

/// A wait in milliseconds for the pipe API: at least 1, and below `u32::MAX`
/// (which the API reads as "forever").
pub fn duration_to_millis(millis: u128) -> (r: u32)
    ensures
        r == (if millis == 0 {
            1
        } else if millis >= u32::MAX {
            (u32::MAX - 1) as int
        } else {
            millis as int
        }),
{
    if millis == 0 {
        1
    } else if millis >= u32::MAX as u128 {
        u32::MAX - 1
    } else {
        millis as u32
    }
}

/// Error text for a failed pipe operation: `context: error`.
pub fn map_io_err(context: &str, err: &str) -> (r: String)
    ensures
        r@ == context@ + ": "@ + err@,
{
    let a = text::concat(context, ": ");
    text::concat(a.as_str(), err)
}

/// The number of worker threads that serve pipe requests.
pub const WORKER_COUNT: usize = 4;

/// Round-robin dispatch of requests over the worker threads of the pipe
/// client. A pool that was shut down has no workers.
pub struct WorkerRotation {
    /// Number of live workers.
    pub workers: usize,
    /// Counter of submitted requests, wrapping on overflow.
    pub next_idx: usize,
}

impl WorkerRotation {
    pub fn new(workers: usize) -> (r: WorkerRotation)
        ensures
            r.workers == workers,
            r.next_idx == 0,
    {
        WorkerRotation { workers, next_idx: 0 }
    }

    /// The worker that takes the next request; an error once the pool was
    /// shut down.
    pub fn submit_work(&mut self) -> (r: Result<usize, String>)
        ensures
            old(self).workers == 0 ==> (r matches Err(e) && e@ == "worker pool shut down"@)
                && *final(self) == *old(self),
            old(self).workers > 0 ==> r == Ok::<usize, String>(
                (old(self).next_idx % old(self).workers) as usize,
            ) && final(self).workers == old(self).workers && final(self).next_idx == (if old(
                self,
            ).next_idx == usize::MAX {
                0
            } else {
                old(self).next_idx + 1
            }),
    {
        if self.workers == 0 {
            return Err(text::owned("worker pool shut down"));
        }
        let idx = self.next_idx % self.workers;
        self.next_idx = self.next_idx.wrapping_add(1);
        Ok(idx)
    }

    /// No worker takes requests any more.
    pub fn shutdown(&mut self)
        ensures
            final(self).workers == 0,
            final(self).next_idx == 0,
    {
        self.workers = 0;
        self.next_idx = 0;
    }
}

/// Consecutive requests go to consecutive workers, wrapping around after
/// the last one (while the counter does not wrap).
pub proof fn lemma_rotation_in_turn(next_idx: int, workers: int)
    requires
        next_idx >= 0,
        workers > 0,
    ensures
        (next_idx + 1) % workers == (next_idx % workers + 1) % workers,
{
    vstd::arithmetic::div_mod::lemma_add_mod_noop(next_idx, 1, workers);
    if workers == 1 {
        vstd::arithmetic::div_mod::lemma_mod_self_0(1);
    } else {
        vstd::arithmetic::div_mod::lemma_small_mod(1, workers as nat);
    }
}

} // verus!
