use dockerproxy::response::{
    content_type, put_bytes, status_line, write_html_response, write_redirect_response,
    write_registry_response, write_text_response, write_upstream_response,
};
use reqwest::header::{HeaderMap, HeaderValue};

fn text(bytes: Vec<u8>) -> String {
    String::from_utf8(bytes).unwrap()
}

#[test]
fn registry_responses_have_a_head_and_a_body() {
    let mut out = b"before".to_vec();
    write_registry_response(&mut out, "200 OK", "text/x", Some("sha256:1"), b"\xff\x00", false);
    let mut expected = b"beforeHTTP/1.1 200 OK\r\nDocker-Distribution-Api-Version: registry/2.0\r\nContent-Type: text/x\r\nContent-Length: 2\r\nConnection: close\r\nDocker-Content-Digest: sha256:1\r\n\r\n".to_vec();
    expected.extend_from_slice(b"\xff\x00");
    assert_eq!(out, expected);
}

#[test]
fn a_head_is_a_response_without_its_body() {
    let mut get = Vec::new();
    let mut head = Vec::new();
    write_registry_response(&mut get, "200 OK", "a/b", None, b"body", false);
    write_registry_response(&mut head, "200 OK", "a/b", None, b"body", true);
    assert_eq!(
        text(head.clone()),
        "HTTP/1.1 200 OK\r\nDocker-Distribution-Api-Version: registry/2.0\r\nContent-Type: a/b\r\nContent-Length: 4\r\nConnection: close\r\n\r\n"
    );
    head.extend_from_slice(b"body");
    assert_eq!(get, head);
}

#[test]
fn texts_and_pages_give_their_length_in_bytes() {
    let mut out = Vec::new();
    write_text_response(&mut out, "200 OK", "ok\n");
    assert_eq!(
        text(out),
        "HTTP/1.1 200 OK\r\nContent-Type: text/plain; charset=utf-8\r\nContent-Length: 3\r\nConnection: close\r\n\r\nok\n"
    );
    let mut out = Vec::new();
    write_html_response(&mut out, "200 OK", "é");
    assert_eq!(
        text(out),
        "HTTP/1.1 200 OK\r\nContent-Type: text/html; charset=utf-8\r\nContent-Length: 2\r\nConnection: close\r\n\r\né"
    );
}

#[test]
fn redirects_name_a_place() {
    let mut out = Vec::new();
    write_redirect_response(&mut out, "/ui");
    assert_eq!(
        text(out),
        "HTTP/1.1 303 See Other\r\nLocation: /ui\r\nContent-Length: 0\r\nConnection: close\r\n\r\n"
    );
}

#[test]
fn status_lines_have_a_reason() {
    assert_eq!(status_line(404, Some("Not Found")), "404 Not Found");
    assert_eq!(status_line(599, None), "599 Error");
}

#[test]
fn upstream_answers_are_passed_on() {
    let mut headers = HeaderMap::new();
    headers.insert("content-type", HeaderValue::from_static("application/json"));
    headers.insert("docker-content-digest", HeaderValue::from_static("sha256:2"));
    let mut out = Vec::new();
    write_upstream_response(&mut out, 404, &headers, b"{}", false);
    assert_eq!(
        text(out),
        "HTTP/1.1 404 Not Found\r\nDocker-Distribution-Api-Version: registry/2.0\r\nContent-Type: application/json\r\nContent-Length: 2\r\nConnection: close\r\nDocker-Content-Digest: sha256:2\r\n\r\n{}"
    );
    let mut out = Vec::new();
    write_upstream_response(&mut out, 599, &HeaderMap::new(), b"", true);
    assert_eq!(
        text(out),
        "HTTP/1.1 599 Error\r\nDocker-Distribution-Api-Version: registry/2.0\r\nContent-Type: application/octet-stream\r\nContent-Length: 0\r\nConnection: close\r\n\r\n"
    );
    assert_eq!(content_type(&headers), "application/json");
    assert_eq!(content_type(&HeaderMap::new()), "application/octet-stream");
}

#[test]
fn known_statuses_have_their_usual_reason() {
    for (status, line) in [
        (200u16, "200 OK"),
        (206, "206 Partial Content"),
        (401, "401 Unauthorized"),
        (429, "429 Too Many Requests"),
        (502, "502 Bad Gateway"),
        (299, "299 Error"),
    ] {
        let mut out = Vec::new();
        write_upstream_response(&mut out, status, &HeaderMap::new(), b"", true);
        assert!(text(out).starts_with(&format!("HTTP/1.1 {line}\r\n")));
    }
}

#[test]
fn bytes_are_appended() {
    let mut out = vec![1, 2];
    put_bytes(&mut out, &[3, 4]);
    assert_eq!(out, vec![1, 2, 3, 4]);
}

#[test]
fn a_head_has_a_line_for_a_digest_only_if_there_is_one() {
    for (digest, count) in [(Some("sha256:1"), 1), (None, 0)] {
        let mut out = Vec::new();
        write_registry_response(&mut out, "200 OK", "a/b", digest, b"", true);
        let head = text(out);
        let lines: Vec<&str> = head.split('\n').collect();
        assert_eq!(lines.len(), 7 + count);
        assert_eq!(lines[0], "HTTP/1.1 200 OK\r");
        assert_eq!(lines[lines.len() - 2..], ["\r", ""]);
        let named = lines.iter().filter(|line| line.starts_with("Docker-Content-Digest: "));
        assert_eq!(named.count(), count);
    }
}
