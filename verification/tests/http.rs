use minipaw::http::{decode_chunked, find_subsequence, format_request_head, parse_response, Request};

#[test]
fn parses_content_length_response() {
    let raw = b"HTTP/1.1 200 OK\r\nContent-Length: 5\r\n\r\nhello";
    assert_eq!(parse_response(raw).unwrap(), "hello");
}

#[test]
fn parses_chunked_response() {
    let raw = b"HTTP/1.1 200 OK\r\nTransfer-Encoding: chunked\r\n\r\n5\r\nhello\r\n6\r\n world\r\n0\r\n\r\n";
    assert_eq!(parse_response(raw).unwrap(), "hello world");
}

#[test]
fn parses_eof_terminated_body() {
    let raw = b"HTTP/1.1 200 OK\r\nConnection: close\r\n\r\nhello world";
    assert_eq!(parse_response(raw).unwrap(), "hello world");
}

#[test]
fn surfaces_non_2xx_status() {
    let raw = b"HTTP/1.1 400 Bad Request\r\nContent-Length: 5\r\n\r\noops!";
    let err = parse_response(raw).unwrap_err();
    assert!(err.contains("HTTP 400"));
    assert!(err.contains("oops!"));
}

#[test]
fn malformed_heads_are_named() {
    assert_eq!(
        parse_response(b"HTTP/1.1 200 OK\r\n").unwrap_err(),
        "http: response had no header terminator"
    );
    assert_eq!(
        parse_response(b"HTTP/1.1\r\n\r\n").unwrap_err(),
        "http: status line missing code"
    );
    assert_eq!(
        parse_response(b"HTTP/1.1 2x0 OK\r\n\r\n").unwrap_err(),
        "http: bad status code \"2x0\": invalid digit found in string"
    );
    assert_eq!(
        parse_response(b"HTTP/1.1 70000 OK\r\n\r\n").unwrap_err(),
        "http: bad status code \"70000\": number too large to fit in target type"
    );
    assert_eq!(
        parse_response(b"HTTP/1.1  OK\r\n\r\n").unwrap_err(),
        "http: bad status code \"\": cannot parse integer from empty string"
    );
}

#[test]
fn bytes_that_are_no_utf8_are_reported_like_the_standard_library_does() {
    let bad: &[u8] = &[0x66, 0xff, 0x6f];
    let words = std::str::from_utf8(bad).unwrap_err().to_string();
    let mut raw = b"HTTP/1.1 200 OK\r\n\r\n".to_vec();
    raw.extend_from_slice(bad);
    assert_eq!(parse_response(&raw).unwrap_err(), format!("http: body not utf8: {words}"));
    let mut head = bad.to_vec();
    head.extend_from_slice(b"\r\n\r\n");
    assert_eq!(parse_response(&head).unwrap_err(), format!("http: header not utf8: {words}"));
    let mut size = bad.to_vec();
    size.extend_from_slice(b"\r\n");
    assert_eq!(decode_chunked(&size).unwrap_err(), format!("chunked: size not utf8: {words}"));
    let mut chunk = b"3\r\n".to_vec();
    chunk.extend_from_slice(bad);
    chunk.extend_from_slice(b"\r\n0\r\n");
    assert_eq!(decode_chunked(&chunk).unwrap_err(), format!("chunked: body not utf8: {words}"));
}

#[test]
fn chunk_errors_are_named() {
    assert_eq!(decode_chunked(b"5").unwrap_err(), "chunked: missing size CRLF");
    assert_eq!(
        decode_chunked(b"zz\r\n").unwrap_err(),
        "chunked: bad size \"zz\": invalid digit found in string"
    );
    assert_eq!(decode_chunked(b"5\r\nhel").unwrap_err(), "chunked: truncated chunk");
    assert_eq!(decode_chunked(b"5\r\nhello\r").unwrap_err(), "chunked: truncated chunk");
    assert_eq!(
        decode_chunked(b"ffffffffffffffff\r\nhello\r\n").unwrap_err(),
        "chunked: truncated chunk"
    );
    assert_eq!(
        decode_chunked(b"1ffffffffffffffff\r\nhello\r\n").unwrap_err(),
        "chunked: bad size \"1ffffffffffffffff\": number too large to fit in target type"
    );
}

#[test]
fn chunk_sizes_are_hexadecimal_and_may_carry_extensions() {
    assert_eq!(
        decode_chunked(b"A;name=value\r\n0123456789\r\n 3 \r\n\xe2\x86\x92\r\n0\r\n\r\n").unwrap(),
        "0123456789→"
    );
}

#[test]
fn a_later_length_replaces_an_earlier_one() {
    let raw = b"HTTP/1.1 200 OK\r\nContent-Length: 2\r\ncontent-length: 4\r\n\r\nhello";
    assert_eq!(parse_response(raw).unwrap(), "hell");
    let unread = b"HTTP/1.1 204 OK\r\nContent-Length: 2\r\nContent-Length: x\r\n\r\nhello";
    assert_eq!(parse_response(unread).unwrap(), "hello");
    let long = b"HTTP/1.1 200 OK\r\nContent-Length: 99\r\n\r\nhello";
    assert_eq!(parse_response(long).unwrap(), "hello");
    let coded = b"HTTP/1.1 200 OK\r\nTransfer-Encoding: gzip, Chunked\r\n\r\n0\r\n\r\n";
    assert_eq!(parse_response(coded).unwrap(), "");
}

#[test]
fn request_head_adds_what_was_not_given() {
    let plain = Request {
        method: "POST",
        scheme: "http",
        host: "h",
        port: 80,
        path: "/p",
        headers: &[("X-A", "1")],
        body: b"abc",
        timeout: 3,
    };
    assert_eq!(
        format_request_head(&plain),
        "POST /p HTTP/1.1\r\nHost: h\r\nX-A: 1\r\nContent-Length: 3\r\nConnection: close\r\n\r\n"
    );
    let full = Request {
        headers: &[("content-LENGTH", "9"), ("connection", "keep-alive")],
        ..plain
    };
    assert_eq!(
        format_request_head(&full),
        "POST /p HTTP/1.1\r\nHost: h\r\ncontent-LENGTH: 9\r\nconnection: keep-alive\r\n\r\n"
    );
}

#[test]
fn subsequences_are_found_at_their_first_place() {
    assert_eq!(find_subsequence(b"aabab", b"ab"), Some(1));
    assert_eq!(find_subsequence(b"aab", b"aab"), Some(0));
    assert_eq!(find_subsequence(b"aab", b"b"), Some(2));
    assert_eq!(find_subsequence(b"aab", b"c"), None);
    assert_eq!(find_subsequence(b"aab", b""), None);
    assert_eq!(find_subsequence(b"a", b"ab"), None);
}
