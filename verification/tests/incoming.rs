use dockerproxy::incoming::{head_text, read_http_headers, HeadProgress, HEAD_LIMIT};

#[test]
fn an_empty_line_ends_a_head() {
    let mut buffer = Vec::new();
    assert_eq!(read_http_headers(&mut buffer, b"GET / HTTP/1.1\r\n"), HeadProgress::More);
    assert_eq!(read_http_headers(&mut buffer, b"Host: x\r\n\r"), HeadProgress::More);
    assert_eq!(read_http_headers(&mut buffer, b"\nrest"), HeadProgress::Complete);
    assert_eq!(buffer, b"GET / HTTP/1.1\r\nHost: x\r\n\r\nrest");
    let mut bare = Vec::new();
    assert_eq!(read_http_headers(&mut bare, b"GET / HTTP/1.1\n\n"), HeadProgress::Complete);
    let mut mixed = Vec::new();
    assert_eq!(read_http_headers(&mut mixed, b"GET /\n\r\n"), HeadProgress::More);
}

#[test]
fn the_end_of_the_connection_ends_a_head() {
    let mut buffer = Vec::new();
    assert_eq!(read_http_headers(&mut buffer, b""), HeadProgress::Complete);
    assert_eq!(read_http_headers(&mut buffer, b"GET /"), HeadProgress::More);
    assert_eq!(read_http_headers(&mut buffer, b""), HeadProgress::Complete);
    assert_eq!(buffer, b"GET /");
}

#[test]
fn a_head_without_an_end_is_too_long() {
    assert_eq!(HEAD_LIMIT, 16 * 1024);
    let mut buffer = Vec::new();
    let chunk = [b'a'; 1024];
    for _ in 0..16 {
        assert_eq!(read_http_headers(&mut buffer, &chunk), HeadProgress::More);
    }
    assert_eq!(buffer.len(), HEAD_LIMIT);
    let mut finished = buffer.clone();
    assert_eq!(read_http_headers(&mut finished, b"\n\n"), HeadProgress::Complete);
    assert_eq!(read_http_headers(&mut buffer, b"a"), HeadProgress::TooLong);
}

#[test]
fn what_is_not_text_is_replaced() {
    assert_eq!(head_text(b"GET /\xc3\xa9"), "GET /é");
    assert_eq!(head_text(b"GET /\xff!"), "GET /\u{fffd}!");
    assert_eq!(head_text(b""), "");
}
