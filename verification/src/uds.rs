//! HTTP over a Unix domain socket: the request bytes and header helpers the
//! socket client uses.
use vstd::prelude::*;
use crate::http;

verus! {

/// The request sent over the socket: default headers use `unix` as host.
pub fn build_request(method: &str, path: &str, headers: Vec<(String, String)>, body: &[u8]) -> (req:
    Vec<u8>)
    ensures
        req@ == http::request_bytes(method@, path@, http::headers_view(headers@), body@, "unix"@),
{
    let ghost h0 = http::headers_view(headers@);
    let mut headers = headers;
    http::add_default_headers(&mut headers, body, "unix");
    let req = http::build_request(method, path, headers, body);
    proof {
        http::lemma_default_headers_idempotent(h0, body@.len(), "unix"@, "localhost"@);
    }
    req
}

/// Parse a raw header-lines string into vector of (name,value) pairs.
pub fn parse_header_lines(input: &str) -> (out: Vec<(String, String)>)
    ensures
        http::headers_view(out@) == http::lf_headers(input@),
{
    http::parse_header_lines(input)
}

/// Serialize headers back to a single string with CRLF line endings.
pub fn serialize_headers(headers: &[(String, String)]) -> (s: String)
    ensures
        s@ == http::serialized(http::headers_view(headers@)),
{
    http::serialize_headers(headers)
}

} // verus!
