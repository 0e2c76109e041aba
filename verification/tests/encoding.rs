use dockerproxy::encoding::{
    escape_html, find_param, hex_value, query_value, url_decode, url_encode,
};

#[test]
fn encodes_reserved_characters() {
    assert_eq!(
        url_encode("dockerhub/manifests/library/nginx/latest"),
        "dockerhub%2Fmanifests%2Flibrary%2Fnginx%2Flatest"
    );
    assert_eq!(url_encode("aZ09-_.~"), "aZ09-_.~");
    assert_eq!(url_encode("a b+c&d=%"), "a%20b%2Bc%26d%3D%25");
    assert_eq!(url_encode("é"), "%C3%A9");
    assert_eq!(url_encode(""), "");
}

#[test]
fn decodes_percent_signs_and_plus_signs() {
    assert_eq!(url_decode("a%2Fb%2fc"), Some("a/b/c".to_string()));
    assert_eq!(url_decode("a+b"), Some("a b".to_string()));
    assert_eq!(url_decode(""), Some(String::new()));
    assert_eq!(url_decode("é"), Some("é".to_string()));
}

#[test]
fn refuses_what_is_not_encoded() {
    assert_eq!(url_decode("%"), None);
    assert_eq!(url_decode("%2"), None);
    assert_eq!(url_decode("%2G"), None);
    assert_eq!(url_decode("%g2"), None);
    assert_eq!(url_decode("%ff"), None);
    assert_eq!(url_decode("%C3"), None);
}

#[test]
fn what_is_encoded_is_decoded_again() {
    for s in ["", "plain", "a/b c+d%e", "größe", "日本\u{1F433}", "\0\n\"'<>&", "..%2F.."] {
        assert_eq!(url_decode(&url_encode(s)), Some(s.to_string()));
    }
}

#[test]
fn hexadecimal_digits_have_values() {
    for byte in 0..=255u8 {
        let expected = (byte as char).to_digit(16).map(|d| d as u8);
        assert_eq!(hex_value(byte), if byte < 128 { expected } else { None });
    }
}

#[test]
fn finds_the_first_parameter_of_a_name() {
    assert_eq!(query_value("/ui/delete?id=a", "id"), Some("a".to_string()));
    assert_eq!(query_value("/x?a=1&id=b=c&id=d", "id"), Some("b=c".to_string()));
    assert_eq!(query_value("/x?id", "id"), None);
    assert_eq!(query_value("/x?id&id=2", "id"), Some("2".to_string()));
    assert_eq!(query_value("/x", "id"), None);
    assert_eq!(query_value("/x?", "id"), None);
    assert_eq!(query_value("/x?id=", "id"), Some(String::new()));
    assert_eq!(query_value("/x?y?id=1", "id"), None);
    assert_eq!(find_param("ns=gcr.io&x=y", "x"), Some("y".to_string()));
    assert_eq!(find_param("", "x"), None);
}

#[test]
fn an_encoded_parameter_is_found_and_decoded() {
    let id = "a&b=c?d/é";
    let path = format!("/ui/delete?id={}", url_encode(id));
    let value = query_value(&path, "id").unwrap();
    assert_eq!(url_decode(&value), Some(id.to_string()));
}

#[test]
fn escapes_what_has_a_meaning_in_a_page() {
    assert_eq!(
        escape_html("<a href=\"x\">&'y'</a>"),
        "&lt;a href=&quot;x&quot;&gt;&amp;&#39;y&#39;&lt;/a&gt;"
    );
    assert_eq!(escape_html("&lt;"), "&amp;lt;");
    assert_eq!(escape_html("plain é"), "plain é");
    let escaped = escape_html("<>\"'&");
    assert!(!escaped.contains(['<', '>', '"', '\'']));
}
