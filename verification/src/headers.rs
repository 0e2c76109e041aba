//! Header fields, methods and status codes, as the HTTP library sees them.

use reqwest::header::{HeaderMap, HeaderName, HeaderValue};
use reqwest::{Method, StatusCode};
use vstd::prelude::*;
use vstd::utf8::*;

use crate::text::opt_string_view;

verus! {

/// `reqwest::header::HeaderMap`, held as it is.
#[verifier::external_type_specification]
#[verifier::external_body]
#[verifier::reject_recursive_types(T)]
pub struct ExHeaderMap<T>(reqwest::header::HeaderMap<T>);

/// `reqwest::header::HeaderValue`, which a header map holds.
#[verifier::external_type_specification]
#[verifier::external_body]
pub struct ExHeaderValue(reqwest::header::HeaderValue);

/// What a header map holds: for each name that has a value, in lower case, the
/// first of its values.
pub uninterp spec fn header_fields(headers: HeaderMap) -> Map<Seq<char>, Seq<u8>>;

/// Whether `b` may stand in a token: a letter, a digit or one of ``!#$%&'*+-.^_`|~``.
pub open spec fn is_token_byte(b: u8) -> bool {
    ||| 0x30 <= b <= 0x39
    ||| 0x41 <= b <= 0x5a
    ||| 0x61 <= b <= 0x7a
    ||| b == 0x21
    ||| 0x23 <= b <= 0x27
    ||| 0x2a <= b <= 0x2b
    ||| 0x2d <= b <= 0x2e
    ||| 0x5e <= b <= 0x60
    ||| b == 0x7c
    ||| b == 0x7e
}

/// Whether `s` is a token: one or more token bytes.
pub open spec fn is_token(s: Seq<u8>) -> bool {
    s.len() > 0 && forall|i: int| 0 <= i < s.len() ==> is_token_byte(#[trigger] s[i])
}

/// Whether `s` is a header name: a token of at most 65535 bytes.
pub open spec fn is_header_name(s: Seq<u8>) -> bool {
    is_token(s) && s.len() <= 65535
}

/// `b` with an upper case ASCII letter made lower case.
pub open spec fn lower_byte(b: u8) -> u8 {
    if 0x41 <= b <= 0x5a {
        (b + 0x20) as u8
    } else {
        b
    }
}

/// ASCII bytes as text, with letters made lower case.
pub open spec fn lower_text(s: Seq<u8>) -> Seq<char> {
    Seq::new(s.len(), |i: int| lower_byte(s[i]) as char)
}

/// Whether `b` is a visible ASCII character, a space or a tab.
pub open spec fn is_visible_byte(b: u8) -> bool {
    0x20 <= b < 0x7f || b == 0x09
}

/// ASCII bytes as text.
pub open spec fn ascii_text(s: Seq<u8>) -> Seq<char> {
    Seq::new(s.len(), |i: int| s[i] as char)
}

/// Calls `HeaderName::from_bytes`, which accepts the tokens of 1 to 65535 bytes and
/// makes their letters lower case.
#[verifier::external_body]
fn normal_header_name(name: &[u8]) -> (r: Option<String>)
    ensures
        match r {
            Some(normal) => is_header_name(name@) && normal@ == lower_text(name@),
            None => !is_header_name(name@),
        },
{
    match HeaderName::from_bytes(name) {
        Ok(normal) => Some(normal.as_str().to_string()),
        Err(_) => None,
    }
}

/// Whether `s` is a header name in lower case.
pub open spec fn is_normal_header_name(s: Seq<char>) -> bool {
    exists|name: Seq<u8>| is_header_name(name) && s == #[trigger] lower_text(name)
}

/// Calls `HeaderMap::get` with a header name in lower case, which gives the first
/// value of that name, if there is any.
#[verifier::external_body]
fn first_header_value(headers: &HeaderMap, name: &str) -> (r: Option<Vec<u8>>)
    requires
        is_normal_header_name(name@),
    ensures
        match r {
            Some(value) => header_fields(*headers).contains_key(name@) && value@
                == header_fields(*headers)[name@],
            None => !header_fields(*headers).contains_key(name@),
        },
{
    headers.get(name).map(|value: &HeaderValue| value.as_bytes().to_vec())
}

/// Calls `HeaderValue::to_str` on the header value with these bytes, which gives
/// their text if all of them are visible ASCII characters, spaces or tabs. Bytes
/// that no header value can hold (`HeaderValue::from_bytes`) are not of that kind.
#[verifier::external_body]
fn header_value_text(value: &[u8]) -> (r: Option<String>)
    ensures
        opt_string_view(r) == visible_text(value@),
{
    match HeaderValue::from_bytes(value) {
        Ok(header) => header.to_str().ok().map(|text: &str| text.to_string()),
        Err(_) => None,
    }
}

/// Bytes as text, if all of them are visible ASCII characters, spaces or tabs.
pub open spec fn visible_text(value: Seq<u8>) -> Option<Seq<char>> {
    if forall|i: int| 0 <= i < value.len() ==> is_visible_byte(#[trigger] value[i]) {
        Some(ascii_text(value))
    } else {
        None
    }
}

/// The first value of the header `name`, whatever the case of its letters, as text:
/// there is none if `name` is not a header name, if no such header is there, or if
/// the value is not visible ASCII text.
pub open spec fn header_text(headers: HeaderMap, name: Seq<char>) -> Option<Seq<char>> {
    let bytes = encode_utf8(name);
    if is_header_name(bytes) && header_fields(headers).contains_key(lower_text(bytes)) {
        visible_text(header_fields(headers)[lower_text(bytes)])
    } else {
        None
    }
}

/// The first value of the header `name`, as text.
pub fn header_to_string(headers: &HeaderMap, name: &str) -> (r: Option<String>)
    ensures
        opt_string_view(r) == header_text(*headers, name@),
{
    match normal_header_name(name.as_bytes()) {
        Some(normal) => {
            match first_header_value(headers, normal.as_str()) {
                Some(value) => header_value_text(value.as_slice()),
                None => None,
            }
        },
        None => None,
    }
}

/// Calls `Method::from_bytes`, which accepts the tokens and keeps them as they are.
#[verifier::external_body]
fn method_from_bytes(method: &[u8]) -> (r: Option<String>)
    ensures
        match r {
            Some(name) => is_token(method@) && name@ == ascii_text(method@),
            None => !is_token(method@),
        },
{
    match Method::from_bytes(method) {
        Ok(known) => Some(known.as_str().to_string()),
        Err(_) => None,
    }
}

/// Whether `method` is the name of a request method: a token.
pub open spec fn is_method(method: Seq<char>) -> bool {
    is_token(encode_utf8(method))
}

/// The request method with this name, if it is one.
pub fn parse_method(method: &str) -> (r: Option<String>)
    ensures
        opt_string_view(r) == (if is_method(method@) {
            Some(method@)
        } else {
            None
        }),
{
    let r = method_from_bytes(method.as_bytes());
    proof {
        if is_method(method@) {
            lemma_ascii_bytes(method@);
        }
    }
    r
}

/// Text whose encoding holds ASCII bytes only is the text of these bytes.
pub proof fn lemma_ascii_bytes(s: Seq<char>)
    requires
        forall|i: int| 0 <= i < encode_utf8(s).len() ==> #[trigger] encode_utf8(s)[i] < 0x80,
    ensures
        ascii_text(encode_utf8(s)) == s,
    decreases s.len(),
{
    if s.len() > 0 {
        let head = encode_scalar(s[0] as u32);
        let tail = encode_utf8(s.drop_first());
        assert(encode_utf8(s) == head + tail);
        encode_utf8_first_scalar(s);
        assert(encode_utf8(s)[0] < 0x80);
        assert(head.len() == 1);
        char_is_scalar(s[0]);
        let c = s[0] as u32;
        assert(has_width_1_encoding(c));
        assert(leading_byte_width_1(c) == c) by (bit_vector)
            requires
                has_width_1_encoding(c),
        ;
        assert forall|i: int| 0 <= i < tail.len() implies #[trigger] tail[i] < 0x80 by {
            assert(encode_utf8(s)[i + 1] == tail[i]);
        }
        lemma_ascii_bytes(s.drop_first());
        assert(ascii_text(encode_utf8(s)) =~= s) by {
            assert(encode_utf8(s)[0] == head[0]);
            assert(head[0] == leading_byte_width_1(c));
            char_u32_cast(s[0], c);
            assert(head[0] as char == s[0]);
            assert(ascii_text(encode_utf8(s))[0] == s[0]);
            assert forall|i: int| 1 <= i < s.len() implies ascii_text(encode_utf8(s))[i] == s[i] by {
                assert(ascii_text(tail)[i - 1] == s.drop_first()[i - 1]);
            }
        }
    }
}

/// Calls `StatusCode::is_success` on the status code with this number; a number
/// outside 100 to 999 is no status code (`StatusCode::from_u16`).
#[verifier::external_body]
pub(crate) fn is_success(status: u16) -> (r: bool)
    ensures
        r == (200 <= status < 300),
{
    match StatusCode::from_u16(status) {
        Ok(code) => code.is_success(),
        Err(_) => false,
    }
}

/// The reason phrase that goes with a status code, if one is standardised.
pub uninterp spec fn reason_phrase(status: u16) -> Option<Seq<char>>;

/// Calls `StatusCode::canonical_reason` on the status code with this number, whose
/// result is `reason_phrase`; a number outside 100 to 999 is no status code
/// (`StatusCode::from_u16`) and has none.
#[verifier::external_body]
pub(crate) fn canonical_reason(status: u16) -> (r: Option<String>)
    ensures
        opt_string_view(r) == reason_phrase(status),
{
    match StatusCode::from_u16(status) {
        Ok(code) => code.canonical_reason().map(|reason: &str| reason.to_string()),
        Err(_) => None,
    }
}

/// The bytes of text that is ASCII are its characters.
proof fn lemma_bytes_of_ascii(s: Seq<char>)
    requires
        forall|i: int| 0 <= i < s.len() ==> 'a' <= #[trigger] s[i] <= 'z' || s[i] == '-',
    ensures
        encode_utf8(s).len() == s.len(),
        forall|i: int| 0 <= i < s.len() ==> #[trigger] encode_utf8(s)[i] == s[i] as u8,
{
    assert(is_ascii_chars(s)) by {
        assert forall|i: int| 0 <= i < s.len() implies '\0' <= #[trigger] s[i] <= '\u{7f}' by {
            assert('a' <= s[i] <= 'z' || s[i] == '-');
        }
    }
    is_ascii_chars_encode_utf8(s);
    assert forall|i: int| 0 <= i < s.len() implies #[trigger] encode_utf8(s)[i] == s[i] as u8 by {
        assert(s[i] as u8 == encode_utf8(s)[i]);
    }
}

/// The value of a header, asked for by its name in lower case, is the text of the bytes of
/// its first field, character by character, if all of these are visible ASCII characters,
/// spaces or tabs; else, or if there is no such field, there is none.
pub proof fn law_header_is_passed_as_it_is(headers: HeaderMap, name: Seq<char>)
    requires
        0 < name.len() <= 65535,
        forall|i: int| 0 <= i < name.len() ==> 'a' <= #[trigger] name[i] <= 'z' || name[i] == '-',
    ensures
        match header_text(headers, name) {
            Some(text) => {
                &&& header_fields(headers).contains_key(name)
                &&& text.len() == header_fields(headers)[name].len()
                &&& forall|i: int|
                    0 <= i < text.len() ==> {
                        let b = #[trigger] header_fields(headers)[name][i];
                        (32 <= b <= 126 || b == 9) && text[i] as int == b as int
                    }
            },
            None => header_fields(headers).contains_key(name) ==> exists|i: int|
                0 <= i < header_fields(headers)[name].len() && {
                    let b = #[trigger] header_fields(headers)[name][i];
                    !(32 <= b <= 126 || b == 9)
                },
        },
{
    lemma_bytes_of_ascii(name);
    let bytes = encode_utf8(name);
    assert forall|i: int| 0 <= i < bytes.len() implies is_token_byte(#[trigger] bytes[i]) by {
        assert(bytes[i] == name[i] as u8);
        assert('a' <= name[i] <= 'z' || name[i] == '-');
    }
    assert(is_header_name(bytes));
    assert(lower_text(bytes) =~= name) by {
        assert forall|i: int| 0 <= i < name.len() implies lower_text(bytes)[i] == name[i] by {
            assert(bytes[i] == name[i] as u8);
            assert('a' <= name[i] <= 'z' || name[i] == '-');
        }
    }
}

/// A method is a name of one or more letters, digits and the marks that may stand in a
/// token, and of nothing else; header names are the same, up to their greatest length.
pub proof fn law_tokens(s: Seq<u8>)
    ensures
        is_token(s) <==> s.len() > 0 && forall|i: int|
            0 <= i < s.len() ==> {
                let c = #[trigger] s[i] as char;
                ||| 'a' <= c <= 'z'
                ||| 'A' <= c <= 'Z'
                ||| '0' <= c <= '9'
                ||| c == '!'
                ||| c == '#'
                ||| c == '$'
                ||| c == '%'
                ||| c == '&'
                ||| c == '\''
                ||| c == '*'
                ||| c == '+'
                ||| c == '-'
                ||| c == '.'
                ||| c == '^'
                ||| c == '_'
                ||| c == '`'
                ||| c == '|'
                ||| c == '~'
            },
        is_header_name(s) <==> is_token(s) && s.len() <= 65535,
{
    if is_token(s) {
        assert forall|i: int| 0 <= i < s.len() implies ({
            let c = #[trigger] s[i] as char;
            ||| 'a' <= c <= 'z'
            ||| 'A' <= c <= 'Z'
            ||| '0' <= c <= '9'
            ||| c == '!'
            ||| c == '#'
            ||| c == '$'
            ||| c == '%'
            ||| c == '&'
            ||| c == '\''
            ||| c == '*'
            ||| c == '+'
            ||| c == '-'
            ||| c == '.'
            ||| c == '^'
            ||| c == '_'
            ||| c == '`'
            ||| c == '|'
            ||| c == '~'
        }) by {
            assert(is_token_byte(s[i]));
        }
    }
}

/// The text of a field is found under any name of it, whatever the case of its letters, and
/// under nothing that is no name of a field; and a method is one exactly if its bytes are a
/// token.
pub proof fn law_header_names_have_no_case(headers: HeaderMap, name: Seq<char>)
    ensures
        ({
            let bytes = encode_utf8(name);
            let lower = Seq::new(
                bytes.len(),
                |i: int|
                    if 65 <= bytes[i] <= 90 {
                        (bytes[i] + 32) as char
                    } else {
                        bytes[i] as char
                    },
            );
            let fields = header_fields(headers);
            match header_text(headers, name) {
                Some(text) => {
                    &&& is_token(bytes)
                    &&& bytes.len() <= 65535
                    &&& fields.contains_key(lower)
                    &&& text.len() == fields[lower].len()
                    &&& forall|i: int|
                        0 <= i < text.len() ==> {
                            let b = #[trigger] fields[lower][i];
                            (32 <= b <= 126 || b == 9) && text[i] as int == b as int
                        }
                },
                None => is_token(bytes) && bytes.len() <= 65535 && fields.contains_key(lower)
                    ==> exists|i: int|
                    0 <= i < fields[lower].len() && {
                        let b = #[trigger] fields[lower][i];
                        !(32 <= b <= 126 || b == 9)
                    },
            }
        }),
        is_method(name) <==> is_token(encode_utf8(name)),
{
    let bytes = encode_utf8(name);
    let lower = Seq::new(
        bytes.len(),
        |i: int|
            if 65 <= bytes[i] <= 90 {
                (bytes[i] + 32) as char
            } else {
                bytes[i] as char
            },
    );
    assert(lower_text(bytes) =~= lower);
}

} // verus!
