use libagent::http::{
    add_default_headers, build_request, header_lookup, memchr_crlf_crlf, parse_header_lines,
    parse_headers, parse_response_head, parse_status_line, serialize_headers,
};
use libagent::stream::{
    read_chunked, read_exact_len, read_http_body, read_response, read_until_double_crlf, ByteCursor,
    RestThen,
};

fn cursor(bytes: &[u8]) -> ByteCursor {
    ByteCursor::new(bytes.to_vec())
}

#[test]
fn test_parse_status_line() {
    assert_eq!(parse_status_line("HTTP/1.1 200 OK"), Ok(200));
    assert_eq!(parse_status_line("HTTP/1.0 404 Not Found"), Ok(404));
    assert!(parse_status_line("INVALID").is_err());
    assert!(parse_status_line("HTTP/1.1 invalid").is_err());
}

#[test]
fn test_parse_headers() {
    let input = "Content-Type: application/json\r\nContent-Length: 42\r\n";
    let headers = parse_headers(input);
    assert_eq!(headers.len(), 2);
    assert_eq!(
        headers[0],
        ("Content-Type".to_string(), "application/json".to_string())
    );
    assert_eq!(headers[1], ("Content-Length".to_string(), "42".to_string()));
}

#[test]
fn test_header_lookup() {
    let headers = vec![
        ("Content-Type".to_string(), "application/json".to_string()),
        ("Content-Length".to_string(), "42".to_string()),
    ];

    assert_eq!(
        header_lookup(&headers, "Content-Type"),
        Some("application/json")
    );
    assert_eq!(
        header_lookup(&headers, "content-type"),
        Some("application/json")
    );
    assert_eq!(header_lookup(&headers, "Non-Existent"), None);
}

#[test]
fn test_memchr_crlf_crlf() {
    assert_eq!(memchr_crlf_crlf(b""), None);
    assert_eq!(memchr_crlf_crlf(b"hello"), None);
    assert_eq!(memchr_crlf_crlf(b"hello\r\n\r\n"), Some(9));
    assert_eq!(memchr_crlf_crlf(b"hello\r\n\r\nworld"), Some(9));
}

#[test]
fn test_parse_header_lines() {
    let input = "Content-Type: application/json\nContent-Length: 42\n\n";
    let headers = parse_header_lines(input);
    assert_eq!(headers.len(), 2);
    assert_eq!(
        headers[0],
        ("Content-Type".to_string(), "application/json".to_string())
    );
    assert_eq!(headers[1], ("Content-Length".to_string(), "42".to_string()));
}

#[test]
fn test_serialize_headers() {
    let headers = vec![
        ("Content-Type".to_string(), "application/json".to_string()),
        ("Content-Length".to_string(), "42".to_string()),
    ];
    let serialized = serialize_headers(&headers);
    assert_eq!(
        serialized,
        "Content-Type: application/json\r\nContent-Length: 42\r\n"
    );
}

#[test]
fn test_add_default_headers() {
    let mut headers = vec![("Custom".to_string(), "value".to_string())];
    let body = b"Hello World";

    add_default_headers(&mut headers, body, "test-host");

    assert_eq!(headers.len(), 4);
    assert!(headers
        .iter()
        .any(|(k, v)| k == "Content-Length" && v == "11"));
    assert!(headers.iter().any(|(k, v)| k == "Host" && v == "test-host"));
    assert!(headers
        .iter()
        .any(|(k, v)| k == "Connection" && v == "close"));
    assert!(headers.iter().any(|(k, v)| k == "Custom" && v == "value"));
}

#[test]
fn test_add_default_headers_preserves_existing() {
    let mut headers = vec![
        ("Content-Length".to_string(), "999".to_string()),
        ("Host".to_string(), "existing-host".to_string()),
        ("Connection".to_string(), "keep-alive".to_string()),
    ];
    let body = b"Hello World";

    add_default_headers(&mut headers, body, "test-host");

    assert_eq!(headers.len(), 3);
    assert!(headers
        .iter()
        .any(|(k, v)| k == "Content-Length" && v == "999"));
    assert!(headers
        .iter()
        .any(|(k, v)| k == "Host" && v == "existing-host"));
    assert!(headers
        .iter()
        .any(|(k, v)| k == "Connection" && v == "keep-alive"));
}

#[test]
fn test_read_http_body_content_length() {
    let headers = vec![("Content-Length".to_string(), "5".to_string())];
    let mut stream = cursor(b"hello");
    let rest = b"";

    let body = read_http_body(&mut stream, rest, &headers).unwrap();
    assert_eq!(body, b"hello");
}

#[test]
fn test_read_http_body_with_rest() {
    let headers = vec![("Content-Length".to_string(), "10".to_string())];
    let mut stream = cursor(b"world");
    let rest = b"hello";

    let body = read_http_body(&mut stream, rest, &headers).unwrap();
    assert_eq!(body, b"helloworld");
}

#[test]
fn test_read_http_body_chunked() {
    let headers = vec![("Transfer-Encoding".to_string(), "chunked".to_string())];
    let mut stream = cursor(b"5\r\nhello\r\n0\r\n\r\n");
    let rest = b"";

    let body = read_http_body(&mut stream, rest, &headers).unwrap();
    assert_eq!(body, b"hello");
}

#[test]
fn test_read_http_body_eof() {
    let headers = vec![];
    let mut stream = cursor(b"hello world");
    let rest = b"";

    let body = read_http_body(&mut stream, rest, &headers).unwrap();
    assert_eq!(body, b"hello world");
}

#[test]
fn test_rest_then_reader() {
    let rest = b"hello";
    let inner = cursor(b" world");
    let mut reader = RestThen::new(rest, inner);

    let out = reader.read(20);
    assert_eq!(out.len(), 5);
    assert_eq!(&out[..], b"hello");

    let out = reader.read(20);
    assert_eq!(out.len(), 6);
    assert_eq!(&out[..], b" world");
}

#[test]
fn test_build_request() {
    let headers = vec![("Custom".to_string(), "value".to_string())];
    let body = b"Hello World";

    let request = build_request("POST", "/test", headers, body);

    assert!(request.starts_with(b"POST /test HTTP/1.1\r\n"));
    assert!(request.ends_with(b"\r\nHello World"));

    let request_str = String::from_utf8(request).unwrap();
    assert!(request_str.contains("Custom: value"));
    assert!(request_str.contains("Content-Length: 11"));
    assert!(request_str.contains("Host: localhost"));
    assert!(request_str.contains("Connection: close"));
}

#[test]
fn test_parse_header_lines_empty() {
    let headers = parse_header_lines("");
    assert_eq!(headers.len(), 0);
}

#[test]
fn test_parse_header_lines_malformed() {
    let input = "Content-Type application/json\nContent-Length: 42\n\n";
    let headers = parse_header_lines(input);
    assert_eq!(headers.len(), 1);
    assert_eq!(headers[0], ("Content-Length".to_string(), "42".to_string()));
}

#[test]
fn test_parse_header_lines_no_colon() {
    let input = "Content-Type application/json\n\n";
    let headers = parse_header_lines(input);
    assert_eq!(headers.len(), 0);
}

#[test]
fn test_parse_header_lines_multiple_colons() {
    let input = "Content-Type: application/json: extra\n\n";
    let headers = parse_header_lines(input);
    assert_eq!(headers.len(), 1);
    assert_eq!(
        headers[0],
        (
            "Content-Type".to_string(),
            "application/json: extra".to_string()
        )
    );
}

#[test]
fn test_parse_header_lines_lf_only() {
    let input = "Content-Type: application/json\nContent-Length: 42\n\n";
    let headers = parse_header_lines(input);
    assert_eq!(headers.len(), 2);
    assert_eq!(
        headers[0],
        ("Content-Type".to_string(), "application/json".to_string())
    );
    assert_eq!(headers[1], ("Content-Length".to_string(), "42".to_string()));
}

#[test]
fn test_parse_header_lines_with_spaces() {
    let input = "Content-Type:   application/json   \nContent-Length: 42\n\n";
    let headers = parse_header_lines(input);
    assert_eq!(headers.len(), 2);
    assert_eq!(
        headers[0],
        ("Content-Type".to_string(), "application/json".to_string())
    );
    assert_eq!(headers[1], ("Content-Length".to_string(), "42".to_string()));
}

#[test]
fn test_parse_header_lines_case_insensitive_lookup() {
    let input = "CONTENT-TYPE: application/json\ncontent-length: 42\n\n";
    let headers = parse_header_lines(input);
    assert_eq!(headers.len(), 2);

    assert_eq!(
        header_lookup(&headers, "Content-Type"),
        Some("application/json")
    );
    assert_eq!(
        header_lookup(&headers, "CONTENT-TYPE"),
        Some("application/json")
    );
    assert_eq!(
        header_lookup(&headers, "content-type"),
        Some("application/json")
    );
    assert_eq!(header_lookup(&headers, "Content-Length"), Some("42"));
    assert_eq!(header_lookup(&headers, "content-length"), Some("42"));
}

#[test]
fn test_read_exact_len_too_short() {
    let mut reader = cursor(b"short");
    let result = read_exact_len(&mut reader, 10);
    assert!(result.is_err());
    assert!(result.unwrap_err().contains("unexpected EOF"));
}

#[test]
fn test_read_chunked_invalid_size() {
    let mut reader = cursor(b"invalid\r\nchunk\r\n0\r\n\r\n");
    let result = read_chunked(&mut reader);
    assert!(result.is_err());
}

#[test]
fn test_read_chunked_zero_size() {
    let mut reader = cursor(b"0\r\n\r\n");
    let result = read_chunked(&mut reader);
    assert_eq!(result, Ok(vec![]));
}

#[test]
fn test_read_http_body_content_length_invalid() {
    let headers = vec![("Content-Length".to_string(), "invalid".to_string())];
    let rest = b"";
    let mut reader = cursor(b"");
    let result = read_http_body(&mut reader, rest, &headers);
    assert!(result.is_err());
    assert!(result.unwrap_err().contains("invalid Content-Length"));
}

#[test]
fn test_read_http_body_chunked_with_rest() {
    let headers = vec![("Transfer-Encoding".to_string(), "chunked".to_string())];
    let mut reader = cursor(b"5\r\nhello\r\n0\r\n\r\n");
    let result = read_http_body(&mut reader, &[], &headers);
    assert_eq!(result, Ok(b"hello".to_vec()));
}

#[test]
fn test_read_http_body_chunked_mixed_case() {
    let headers = vec![("Transfer-Encoding".to_string(), "CHUNKED".to_string())];
    let mut reader = cursor(b"5\r\nhello\r\n0\r\n\r\n");
    let result = read_http_body(&mut reader, &[], &headers);
    assert_eq!(result, Ok(b"hello".to_vec()));
}

#[test]
fn test_add_default_headers_empty_body_preserves_length() {
    let mut headers = vec![];
    let body = b"";

    add_default_headers(&mut headers, body, "test-host");

    assert_eq!(headers.len(), 3);
    assert!(headers
        .iter()
        .any(|(k, v)| k == "Content-Length" && v == "0"));
    assert!(headers.iter().any(|(k, v)| k == "Host" && v == "test-host"));
    assert!(headers
        .iter()
        .any(|(k, v)| k == "Connection" && v == "close"));
}

#[test]
fn test_add_default_headers_empty_body() {
    let mut headers = vec![];
    let body = b"";

    add_default_headers(&mut headers, body, "test-host");

    assert_eq!(headers.len(), 3);
    assert!(headers
        .iter()
        .any(|(k, v)| k == "Content-Length" && v == "0"));
    assert!(headers.iter().any(|(k, v)| k == "Host" && v == "test-host"));
    assert!(headers
        .iter()
        .any(|(k, v)| k == "Connection" && v == "close"));
}

// ---------------------------------------------------------------------------
// Further cases
// ---------------------------------------------------------------------------

#[test]
fn status_line_edge_cases() {
    assert_eq!(parse_status_line("HTTP/1.1 204"), Ok(204));
    assert!(parse_status_line("HTTP/1.1").is_err());
    assert!(parse_status_line("").is_err());
    assert!(parse_status_line("HTTP/1.1 70000 Too Big").is_err());
}

#[test]
fn default_headers_are_idempotent() {
    let mut headers = vec![("X-Test".to_string(), "1".to_string())];
    add_default_headers(&mut headers, b"abc", "unix");
    let once = headers.clone();
    add_default_headers(&mut headers, b"abc", "unix");
    assert_eq!(headers, once);
}

#[test]
fn default_headers_exact_order() {
    let mut headers = vec![];
    add_default_headers(&mut headers, b"12345", "pipe");
    assert_eq!(
        headers,
        vec![
            ("Content-Length".to_string(), "5".to_string()),
            ("Host".to_string(), "pipe".to_string()),
            ("Connection".to_string(), "close".to_string()),
        ]
    );
}

#[test]
fn build_request_exact_bytes() {
    let request = build_request("GET", "/info", vec![], b"");
    assert_eq!(
        request,
        b"GET /info HTTP/1.1\r\nContent-Length: 0\r\nHost: localhost\r\nConnection: close\r\n\r\n"
            .to_vec()
    );
}

#[test]
fn header_lookup_first_match_wins() {
    let headers = vec![
        ("X-A".to_string(), "first".to_string()),
        ("x-a".to_string(), "second".to_string()),
    ];
    assert_eq!(header_lookup(&headers, "X-A"), Some("first"));
}

#[test]
fn parse_headers_keeps_raw_names_and_trailing_spaces() {
    let headers = parse_headers("Good: yes\r\nbad line\r\n: empty-name\r\nAlso:  fine  \r\n");
    assert_eq!(
        headers,
        vec![
            ("Good".to_string(), "yes".to_string()),
            ("".to_string(), "empty-name".to_string()),
            ("Also".to_string(), "fine  ".to_string()),
        ]
    );
}

#[test]
fn parse_header_lines_crlf_input() {
    let headers = parse_header_lines("A: 1\r\nB: 2\r\n");
    assert_eq!(
        headers,
        vec![
            ("A".to_string(), "1".to_string()),
            ("B".to_string(), "2".to_string()),
        ]
    );
}

#[test]
fn serialize_then_parse_round_trip() {
    let headers = vec![
        ("Content-Type".to_string(), "text/plain".to_string()),
        ("X-Test".to_string(), "yes".to_string()),
    ];
    let text = serialize_headers(&headers);
    assert_eq!(parse_header_lines(&text), headers);
    assert_eq!(parse_headers(&text), headers);
}

#[test]
fn read_until_double_crlf_finds_end() {
    let mut stream = cursor(b"HTTP/1.1 200 OK\r\nA: b\r\n\r\nbody");
    let mut buf = Vec::new();
    let end = read_until_double_crlf(&mut stream, &mut buf).unwrap();
    assert_eq!(end, 25);
    assert_eq!(&buf[..end], b"HTTP/1.1 200 OK\r\nA: b\r\n\r\n");
}

#[test]
fn read_until_double_crlf_eof_error() {
    let mut stream = cursor(b"HTTP/1.1 200 OK\r\n");
    let mut buf = Vec::new();
    let err = read_until_double_crlf(&mut stream, &mut buf).unwrap_err();
    assert_eq!(err, "unexpected EOF while reading headers");
}

#[test]
fn read_chunked_several_chunks_and_extension() {
    let mut reader = cursor(b"3;ext=1\r\nabc\r\nA\r\n0123456789\r\n0\r\n\r\n");
    assert_eq!(read_chunked(&mut reader), Ok(b"abc0123456789".to_vec()));
}

#[test]
fn read_chunked_bad_terminator() {
    let mut reader = cursor(b"3\r\nabcXY0\r\n\r\n");
    assert_eq!(
        read_chunked(&mut reader),
        Err("invalid chunk terminator".to_string())
    );
}

#[test]
fn read_chunked_eof_in_size_line() {
    let mut reader = cursor(b"5\r\nhel");
    assert!(read_chunked(&mut reader).is_err());
    let mut reader = cursor(b"");
    assert_eq!(
        read_chunked(&mut reader),
        Err("unexpected EOF in chunked encoding".to_string())
    );
}

#[test]
fn read_http_body_rest_longer_than_length() {
    let headers = vec![("Content-Length".to_string(), "3".to_string())];
    let mut stream = cursor(b"ignored");
    let body = read_http_body(&mut stream, b"abcdef", &headers).unwrap();
    assert_eq!(body, b"abcdef".to_vec());
}

#[test]
fn read_http_body_short_content() {
    let headers = vec![("Content-Length".to_string(), "10".to_string())];
    let mut stream = cursor(b"abc");
    assert_eq!(
        read_http_body(&mut stream, b"", &headers),
        Err("unexpected EOF while reading body".to_string())
    );
}

#[test]
fn response_head_parses_status_and_headers() {
    let head = b"HTTP/1.1 201 Created\r\nX-A: 1\r\nContent-Length: 0\r\n\r\n";
    let (status, headers) = parse_response_head(head).unwrap();
    assert_eq!(status, 201);
    assert_eq!(
        headers,
        vec![
            ("X-A".to_string(), "1".to_string()),
            ("Content-Length".to_string(), "0".to_string()),
        ]
    );
}

#[test]
fn response_head_rejects_bad_utf8() {
    let head = b"HTTP/1.1 200 OK\r\nX: \xff\r\n\r\n";
    assert_eq!(
        parse_response_head(head),
        Err("invalid utf-8 in headers".to_string())
    );
}

#[test]
fn whole_response_with_content_length() {
    let mut stream = cursor(
        b"HTTP/1.1 201 Created\r\nContent-Type: text/plain\r\nX-Server: uds-test\r\nContent-Length: 8\r\n\r\nresponse",
    );
    let resp = read_response(&mut stream).unwrap();
    assert_eq!(resp.status, 201);
    let headers = serialize_headers(&resp.headers);
    assert!(headers.contains("Content-Type: text/plain"));
    assert!(headers.contains("X-Server: uds-test"));
    assert_eq!(resp.body, b"response".to_vec());
}

#[test]
fn whole_response_chunked() {
    let mut stream = cursor(
        b"HTTP/1.1 200 OK\r\nTransfer-Encoding: chunked\r\nX-Server: uds-test-chunked\r\n\r\n5\r\nhello\r\n6\r\n world\r\n0\r\n\r\n",
    );
    let resp = read_response(&mut stream).unwrap();
    assert_eq!(resp.status, 200);
    assert_eq!(resp.body, b"hello world".to_vec());
    assert_eq!(
        header_lookup(&resp.headers, "x-server"),
        Some("uds-test-chunked")
    );
}

#[test]
fn whole_response_errors() {
    let mut stream = cursor(b"garbage\r\n\r\n");
    assert_eq!(
        read_response(&mut stream).err(),
        Some("malformed status line".to_string())
    );
    let mut stream = cursor(b"HTTP/1.1 200 OK\r\n");
    assert_eq!(
        read_response(&mut stream).err(),
        Some("unexpected EOF while reading headers".to_string())
    );
}

#[test]
fn content_length_body_split_and_trailing_bytes() {
    let headers = vec![("Content-Length".to_string(), "5".to_string())];
    let mut stream = cursor(b"loEXTRA");
    assert_eq!(
        read_http_body(&mut stream, b"hel", &headers),
        Ok(b"hello".to_vec())
    );
    let mut stream = cursor(b"helloEXTRA");
    assert_eq!(
        read_http_body(&mut stream, b"", &headers),
        Ok(b"hello".to_vec())
    );
}

#[test]
fn chunked_round_trip_with_hex_sizes_and_split() {
    let mut encoded = b"1a\r\nabcdefghijklmnopqrstuvwxyz\r\n3\r\nxyz\r\n0\r\n\r\n".to_vec();
    encoded.extend_from_slice(b"EXTRA");
    let mut reader = cursor(&encoded);
    assert_eq!(
        read_chunked(&mut reader),
        Ok(b"abcdefghijklmnopqrstuvwxyzxyz".to_vec())
    );
    let headers = vec![("Transfer-Encoding".to_string(), "chunked".to_string())];
    for k in [0usize, 3, 10, 33, encoded.len()] {
        let mut stream = cursor(&encoded[k..]);
        assert_eq!(
            read_http_body(&mut stream, &encoded[..k], &headers),
            Ok(b"abcdefghijklmnopqrstuvwxyzxyz".to_vec()),
            "split at {}",
            k
        );
    }
}

#[test]
fn whole_response_read_back_and_trailing_bytes() {
    let mut stream = cursor(b"HTTP/1.1 200 OK\r\nX-A: 1\r\nContent-Length: 2\r\n\r\nhi");
    let resp = read_response(&mut stream).unwrap();
    assert_eq!(resp.status, 200);
    assert_eq!(
        resp.headers,
        vec![
            ("X-A".to_string(), "1".to_string()),
            ("Content-Length".to_string(), "2".to_string()),
        ]
    );
    assert_eq!(resp.body, b"hi".to_vec());
    // Bytes that arrive together with the header section are all kept.
    let mut stream = cursor(b"HTTP/1.1 200 OK\r\nContent-Length: 2\r\n\r\nhiX");
    assert_eq!(read_response(&mut stream).unwrap().body, b"hiX".to_vec());
}

#[test]
fn whole_response_with_utf8_header_value() {
    let text = "HTTP/1.1 404 Não encontrado\r\nX-Name: café\r\nContent-Length: 3\r\n\r\nabc";
    let mut stream = cursor(text.as_bytes());
    let resp = read_response(&mut stream).unwrap();
    assert_eq!(resp.status, 404);
    assert_eq!(header_lookup(&resp.headers, "x-name"), Some("café"));
    assert_eq!(resp.body, b"abc".to_vec());
}

#[test]
fn readers_stop_where_the_body_ends() {
    // The chunked decoder reads no further than the last chunk's trailer.
    let mut stream = cursor(b"3\r\nabc\r\n0\r\n\r\nXYZ");
    assert_eq!(read_chunked(&mut stream), Ok(b"abc".to_vec()));
    assert_eq!(stream.remaining_len(), 3);
    // A Content-Length body takes exactly the bytes still owed.
    let headers = vec![("Content-Length".to_string(), "4".to_string())];
    let mut stream = cursor(b"cdXY");
    assert_eq!(read_http_body(&mut stream, b"ab", &headers), Ok(b"abcd".to_vec()));
    assert_eq!(stream.remaining_len(), 2);
    // A body read to the end of the stream leaves nothing.
    let mut stream = cursor(b"tail");
    assert_eq!(read_http_body(&mut stream, b"", &[]), Ok(b"tail".to_vec()));
    assert_eq!(stream.remaining_len(), 0);
}

#[test]
fn serialized_headers_parse_back_as_lines() {
    let headers = vec![
        ("Content-Type".to_string(), "application/json".to_string()),
        ("X-Empty".to_string(), "".to_string()),
        ("X-Inner".to_string(), "a  b: c".to_string()),
    ];
    let text = serialize_headers(&headers);
    assert_eq!(parse_header_lines(&text), headers);
}

#[test]
fn chunked_response_read_back() {
    let text = b"HTTP/1.1 200 OK\r\nTransfer-Encoding: chunked\r\n\r\n5\r\nhello\r\n1\r\n!\r\n0\r\n\r\nnext";
    let mut stream = cursor(text);
    let resp = read_response(&mut stream).unwrap();
    assert_eq!(resp.status, 200);
    assert_eq!(
        resp.headers,
        vec![("Transfer-Encoding".to_string(), "chunked".to_string())]
    );
    assert_eq!(resp.body, b"hello!".to_vec());
}

#[test]
fn response_without_length_reads_to_end() {
    let mut stream = cursor(b"HTTP/1.1 200 OK\r\nX-A: 1\r\n\r\nall of it");
    let resp = read_response(&mut stream).unwrap();
    assert_eq!(resp.status, 200);
    assert_eq!(resp.headers, vec![("X-A".to_string(), "1".to_string())]);
    assert_eq!(resp.body, b"all of it".to_vec());
    assert_eq!(stream.remaining_len(), 0);
}
