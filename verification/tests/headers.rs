use dockerproxy::headers::{header_to_string, parse_method};
use reqwest::header::{HeaderMap, HeaderName, HeaderValue};

fn headers(fields: &[(&'static str, &[u8])]) -> HeaderMap {
    let mut map = HeaderMap::new();
    for (name, value) in fields {
        map.append(
            HeaderName::from_bytes(name.as_bytes()).unwrap(),
            HeaderValue::from_bytes(value).unwrap(),
        );
    }
    map
}

#[test]
fn header_names_have_no_case() {
    let map = headers(&[("Content-Type", b"text/plain")]);
    assert_eq!(header_to_string(&map, "content-type"), Some("text/plain".to_string()));
    assert_eq!(header_to_string(&map, "CONTENT-TYPE"), Some("text/plain".to_string()));
    assert_eq!(header_to_string(&map, "content"), None);
}

#[test]
fn the_first_of_several_values_counts() {
    let map = headers(&[("x-a", b"1"), ("x-b", b"2"), ("x-a", b"3")]);
    assert_eq!(header_to_string(&map, "X-A"), Some("1".to_string()));
}

#[test]
fn values_are_visible_text() {
    let map = headers(&[("a", b"with\ttab and space"), ("b", b"caf\xc3\xa9"), ("c", b"")]);
    assert_eq!(header_to_string(&map, "a"), Some("with\ttab and space".to_string()));
    assert_eq!(header_to_string(&map, "b"), None);
    assert_eq!(header_to_string(&map, "c"), Some(String::new()));
}

#[test]
fn what_is_no_header_name_names_nothing() {
    let map = headers(&[("a", b"1")]);
    assert_eq!(header_to_string(&map, ""), None);
    assert_eq!(header_to_string(&map, "a b"), None);
    assert_eq!(header_to_string(&map, "a:"), None);
    assert_eq!(header_to_string(&map, "é"), None);
    assert_eq!(header_to_string(&map, &"a".repeat(65536)), None);
    assert_eq!(header_to_string(&map, &"a".repeat(65535)), None);
}

#[test]
fn every_byte_is_judged_as_the_http_library_does() {
    let map = HeaderMap::new();
    for byte in 0..128u8 {
        let name = (byte as char).to_string();
        let known = HeaderName::from_bytes(name.as_bytes()).is_ok();
        assert_eq!(parse_method(&name).is_some(), known, "{byte}");
        assert_eq!(header_to_string(&map, &name), None);
        if known {
            let mut one = HeaderMap::new();
            one.insert(HeaderName::from_bytes(name.as_bytes()).unwrap(), HeaderValue::from_static("v"));
            assert_eq!(header_to_string(&one, &name), Some("v".to_string()));
        }
    }
}

#[test]
fn methods_are_tokens() {
    assert_eq!(parse_method("GET"), Some("GET".to_string()));
    assert_eq!(parse_method("HEAD"), Some("HEAD".to_string()));
    assert_eq!(parse_method("get"), Some("get".to_string()));
    assert_eq!(parse_method("X-OWN!"), Some("X-OWN!".to_string()));
    assert_eq!(parse_method(&"A".repeat(100)), Some("A".repeat(100)));
    assert_eq!(parse_method(""), None);
    assert_eq!(parse_method("G T"), None);
    assert_eq!(parse_method("GÉT"), None);
}
