//! The rules behind the C interface: how the arguments of a proxied request
//! and of a DogStatsD payload are checked and converted, and the codes the
//! exported functions return.
//!
//! A C string argument is given as `None` for a null pointer, or as its
//! bytes up to (not including) the terminating NUL.
use vstd::prelude::*;
use crate::http;
use crate::text;
use crate::uds;

verus! {

broadcast use vstd::string::group_string_axioms;

/// How an exported call ended.
#[derive(Clone, Copy, PartialEq, Eq, Structural, Debug)]
pub enum CallOutcome {
    /// The request was answered, or the metric sent.
    Success,
    /// An argument was missing or malformed.
    InvalidArguments,
    /// The request or the send failed.
    Failed,
    /// A panic was caught.
    Panicked,
}

/// The callback a finished proxied request calls.
#[derive(Clone, Copy, PartialEq, Eq, Structural, Debug)]
pub enum Callback {
    /// The response callback, with the status, headers and body.
    Response,
    /// The error callback, with the error message.
    Error,
    /// No callback: the one the outcome calls for was not given.
    NoCall,
}

pub open spec fn callback_choice(outcome: CallOutcome, has_response: bool, has_error: bool) -> Callback {
    match outcome {
        CallOutcome::Success => if has_response {
            Callback::Response
        } else {
            Callback::NoCall
        },
        _ => if has_error {
            Callback::Error
        } else {
            Callback::NoCall
        },
    }
}

/// Which callback a proxied request calls, once, when it ends with
/// `outcome`: the response callback after a success, the error callback
/// after any failure (bad arguments, failed request, caught panic); nothing
/// when that callback is null.
pub fn callback_for(outcome: CallOutcome, has_response: bool, has_error: bool) -> (c: Callback)
    ensures
        c == callback_choice(outcome, has_response, has_error),
{
    match outcome {
        CallOutcome::Success => if has_response {
            Callback::Response
        } else {
            Callback::NoCall
        },
        _ => if has_error {
            Callback::Error
        } else {
            Callback::NoCall
        },
    }
}

/// Exactly one callback is called when both are given, and it matches the
/// outcome: the response callback exactly on success.
pub proof fn lemma_one_callback(outcome: CallOutcome)
    ensures
        callback_choice(outcome, true, true) != Callback::NoCall,
        (callback_choice(outcome, true, true) == Callback::Response) <==> (outcome
            == CallOutcome::Success),
        callback_choice(outcome, false, false) == Callback::NoCall,
{
}

/// The code an exported call returns: 0, -1, -2, or -100 after a panic.
pub fn return_code(outcome: CallOutcome) -> (code: i32)
    ensures
        code == (match outcome {
            CallOutcome::Success => 0,
            CallOutcome::InvalidArguments => -1,
            CallOutcome::Failed => -2,
            CallOutcome::Panicked => -100,
        }),
{
    match outcome {
        CallOutcome::Success => 0,
        CallOutcome::InvalidArguments => -1,
        CallOutcome::Failed => -2,
        CallOutcome::Panicked => -100,
    }
}

pub open spec fn bytes_view(p: Option<&[u8]>) -> Option<Seq<u8>> {
    match p {
        Some(b) => Some(b@),
        None => None,
    }
}

/// A C string argument named `name` as text: an error when the pointer is
/// null or the bytes are not UTF-8.
pub open spec fn cstr_text(p: Option<Seq<u8>>, name: Seq<char>) -> Result<Seq<char>, Seq<char>> {
    match p {
        None => Err(name + " is null"@),
        Some(b) => if vstd::utf8::valid_utf8(b) {
            Ok(vstd::utf8::decode_utf8(b))
        } else {
            Err(name + " is not valid UTF-8"@)
        },
    }
}

pub fn cstr_arg(p: Option<&[u8]>, name: &str) -> (r: Result<String, String>)
    ensures
        match r {
            Ok(s) => cstr_text(bytes_view(p), name@) == Ok::<Seq<char>, Seq<char>>(s@),
            Err(e) => cstr_text(bytes_view(p), name@) == Err::<Seq<char>, Seq<char>>(e@),
        },
{
    match p {
        None => Err(text::concat(name, " is null")),
        Some(b) => match text::utf8_decode(b) {
            Some(s) => Ok(text::owned(s)),
            None => Err(text::concat(name, " is not valid UTF-8")),
        },
    }
}

/// A request path as sent: a leading `/` is added when missing.
pub open spec fn with_leading_slash(p: Seq<char>) -> Seq<char> {
    if p.len() > 0 && p[0] == '/' {
        p
    } else {
        seq!['/'] + p
    }
}

/// The checked arguments of a proxied request: method, path, headers
/// (parsed from `Name: Value` lines) and body; or the first error, checking
/// the method, the path and the headers in that order. A null body is an
/// empty one.
pub open spec fn proxy_args(
    method: Option<Seq<u8>>,
    path: Option<Seq<u8>>,
    headers: Option<Seq<u8>>,
    body: Option<Seq<u8>>,
) -> Result<(Seq<char>, Seq<char>, Seq<(Seq<char>, Seq<char>)>, Seq<u8>), Seq<char>> {
    match cstr_text(method, "method"@) {
        Err(e) => Err(e),
        Ok(m) => match cstr_text(path, "path"@) {
            Err(e) => Err(e),
            Ok(p) => match cstr_text(headers, "headers"@) {
                Err(e) => Err(e),
                Ok(h) => Ok(
                    (
                        m,
                        with_leading_slash(p),
                        http::lf_headers(h),
                        match body {
                            Some(b) => b,
                            None => Seq::empty(),
                        },
                    ),
                ),
            },
        },
    }
}

fn ensure_leading_slash(path: String) -> (r: String)
    ensures
        r@ == with_leading_slash(path@),
{
    let v = text::chars_of(path.as_str());
    if v.len() > 0 && v[0] == '/' {
        path
    } else {
        proof {
            reveal_strlit("/");
            assert("/"@ =~= seq!['/']);
        }
        text::concat("/", path.as_str())
    }
}

fn copy_bytes(b: &[u8]) -> (v: Vec<u8>)
    ensures
        v@ == b@,
{
    let mut v: Vec<u8> = Vec::new();
    let mut i: usize = 0;
    while i < b.len()
        invariant
            i <= b@.len(),
            v@ == b@.take(i as int),
        decreases b@.len() - i,
    {
        v.push(b[i]);
        assert(v@ =~= b@.take(i + 1));
        i = i + 1;
    }
    assert(v@ =~= b@);
    v
}

/// Checks and converts the arguments of a proxied request.
pub fn validate_proxy_args(
    method: Option<&[u8]>,
    path: Option<&[u8]>,
    headers: Option<&[u8]>,
    body: Option<&[u8]>,
) -> (r: Result<(String, String, Vec<(String, String)>, Vec<u8>), String>)
    ensures
        match r {
            Ok(a) => proxy_args(
                bytes_view(method),
                bytes_view(path),
                bytes_view(headers),
                bytes_view(body),
            ) == Ok::<_, Seq<char>>((a.0@, a.1@, http::headers_view(a.2@), a.3@)),
            Err(e) => proxy_args(
                bytes_view(method),
                bytes_view(path),
                bytes_view(headers),
                bytes_view(body),
            ) == Err::<(Seq<char>, Seq<char>, Seq<(Seq<char>, Seq<char>)>, Seq<u8>), _>(e@),
        },
{
    let method = match cstr_arg(method, "method") {
        Ok(s) => s,
        Err(e) => return Err(e),
    };
    let path = match cstr_arg(path, "path") {
        Ok(s) => s,
        Err(e) => return Err(e),
    };
    let path = ensure_leading_slash(path);
    let headers_str = match cstr_arg(headers, "headers") {
        Ok(s) => s,
        Err(e) => return Err(e),
    };
    let hdrs = uds::parse_header_lines(headers_str.as_str());
    let body = match body {
        Some(b) => copy_bytes(b),
        None => Vec::new(),
    };
    Ok((method, path, hdrs, body))
}

/// A DogStatsD payload is sent only when it is present and not empty.
pub fn payload_is_valid(payload: Option<&[u8]>) -> (ok: bool)
    ensures
        ok == (payload matches Some(b) && b@.len() > 0),
{
    match payload {
        Some(b) => b.len() > 0,
        None => false,
    }
}

/// On Windows a proxied request needs the trace agent's pipe name: the
/// error when it is blank.
pub fn pipe_name_error(pipe_name: &str) -> (r: Option<String>)
    ensures
        r is Some <==> text::trim(pipe_name@).len() == 0,
        r matches Some(e) ==> e@ == "LIBAGENT_TRACE_AGENT_PIPE not set"@,
{
    let t = text::trim_str(pipe_name);
    if t.as_str().unicode_len() == 0 {
        Some(text::owned("LIBAGENT_TRACE_AGENT_PIPE not set"))
    } else {
        None
    }
}

} // verus!
