use dockerproxy::text::{
    after_prefix, begins_with, chars_of, contains_char, contains_text, decimal_text,
    first_line_of, is_whitespace_char, same_text, split_at_each, split_once_around, split_once_at,
    text_before, three_words, trim_char_text, trim_end_char_text, trim_start_text, trim_text,
};

const SAMPLES: [&str; 16] = [
    "",
    "/",
    "//",
    "a",
    "a/b",
    "/a/b/",
    "key=value=more",
    " padded \t",
    "\u{a0}wide\u{3000}",
    "\"quoted\"",
    "\"\"",
    "line\r\nnext",
    "line\nnext\n",
    "only\r",
    "größe/日本",
    "x/manifests/y/manifests/z",
];

#[test]
fn white_space_is_what_unicode_says() {
    for code in 0..=0x10FFFFu32 {
        if let Some(c) = char::from_u32(code) {
            assert_eq!(is_whitespace_char(c), c.is_whitespace(), "{code:x}");
        }
    }
}

#[test]
fn splitting_agrees_with_the_standard_library() {
    for s in SAMPLES {
        for c in ['/', '=', '\n', '本', '?'] {
            assert_eq!(split_once_at(s, c), s.split_once(c));
            assert_eq!(split_at_each(s, c), s.split(c).collect::<Vec<_>>());
            assert_eq!(text_before(s, c), s.split(c).next().unwrap());
            assert_eq!(contains_char(s, c), s.contains(c));
        }
        for p in ["", "/", "/manifests/", "größe", "next", "zzzzzzzzzzzzzzzzzzzzzzzzzzzzzzzzzzzz"] {
            assert_eq!(split_once_around(s, p), s.split_once(p));
            assert_eq!(contains_text(s, p), s.contains(p));
            assert_eq!(after_prefix(s, p), s.strip_prefix(p));
            assert_eq!(begins_with(s, p), s.starts_with(p));
        }
    }
}

#[test]
fn trimming_agrees_with_the_standard_library() {
    for s in SAMPLES {
        assert_eq!(trim_text(s), s.trim());
        assert_eq!(trim_start_text(s), s.trim_start());
        for d in ['/', '"', 'a'] {
            assert_eq!(trim_char_text(s, d), s.trim_matches(d));
            assert_eq!(trim_end_char_text(s, d), s.trim_end_matches(d));
        }
    }
}

#[test]
fn lines_and_words_agree_with_the_standard_library() {
    for s in ["", "GET / HTTP/1.1\r\nHost: x\r\n\r\n", "  a\t b  c d", "one", "\n\nx", "a\r", "\r\nb"] {
        let line = s.lines().next().unwrap_or_default();
        assert_eq!(first_line_of(s), line);
        let mut parts = line.split_whitespace();
        let expected = (
            parts.next().unwrap_or_default(),
            parts.next().unwrap_or_default(),
            parts.next().unwrap_or_default(),
        );
        assert_eq!(three_words(first_line_of(s)), expected);
    }
}

#[test]
fn a_bare_carriage_return_is_white_space_at_the_end_of_a_line() {
    assert_eq!(three_words(first_line_of("GET /ui\r")), ("GET", "/ui", ""));
}

#[test]
fn text_is_compared_by_its_characters() {
    for a in SAMPLES {
        assert_eq!(chars_of(a), a.chars().collect::<Vec<_>>());
        for b in SAMPLES {
            assert_eq!(same_text(a, b), a == b);
        }
    }
}

#[test]
fn numbers_are_written_in_decimal() {
    for n in [0, 7, 9, 10, 99, 100, 65535, 10_000_000_000, u64::MAX] {
        assert_eq!(decimal_text(n), n.to_string());
    }
}
