//! Query strings, percent encoding and HTML escaping.

use vstd::prelude::*;
use vstd::utf8::*;

use crate::text::{
    chars_of, law_pieces, lemma_split_once_char_of, opt_string_view, pieces, same_text, split_at_each,
    split_once_at, split_once_char, views,
};

verus! {

// ---------------------------------------------------------------------------
// Query parameters
// ---------------------------------------------------------------------------

/// The value of the first part of the form `name=value`.
pub open spec fn param_value(parts: Seq<Seq<char>>, name: Seq<char>) -> Option<Seq<char>>
    decreases parts.len(),
{
    if parts.len() == 0 {
        None
    } else {
        match split_once_char(parts[0], '=') {
            Some((key, value)) => if key == name {
                Some(value)
            } else {
                param_value(parts.drop_first(), name)
            },
            None => param_value(parts.drop_first(), name),
        }
    }
}

/// The value that the query `a=1&b=2&...` gives `name`.
pub open spec fn query_param(query: Seq<char>, name: Seq<char>) -> Option<Seq<char>> {
    param_value(pieces(query, '&'), name)
}

/// The value that the query of `path`, which follows its first `?`, gives `name`.
pub open spec fn path_query_value(path: Seq<char>, name: Seq<char>) -> Option<Seq<char>> {
    match split_once_char(path, '?') {
        Some((_, query)) => query_param(query, name),
        None => None,
    }
}

/// The value that a query gives `name`.
pub fn find_param(query: &str, name: &str) -> (r: Option<String>)
    ensures
        opt_string_view(r) == query_param(query@, name@),
{
    let parts = split_at_each(query, '&');
    let n: usize = parts.len();
    let ghost all = views(parts@);
    assert(all.skip(0) =~= all);
    for i in 0..n
        invariant
            n == parts@.len(),
            all == views(parts@),
            param_value(all, name@) == param_value(all.skip(i as int), name@),
            all == pieces(query@, '&'),
    {
        assert(all.skip(i as int)[0] == parts@[i as int]@);
        assert(all.skip(i as int).drop_first() =~= all.skip(i + 1));
        if let Some((key, value)) = split_once_at(parts[i], '=') {
            if same_text(key, name) {
                return Some(value.to_string());
            }
        }
    }
    None
}

/// The value that the query of `path` gives `name`.
pub fn query_value(path: &str, name: &str) -> (r: Option<String>)
    ensures
        opt_string_view(r) == path_query_value(path@, name@),
{
    match split_once_at(path, '?') {
        Some((_, query)) => find_param(query, name),
        None => None,
    }
}

// ---------------------------------------------------------------------------
// Percent encoding
// ---------------------------------------------------------------------------

/// Whether `b` stands for itself in an encoded text: a letter, a digit, or one of `-_.~`.
pub open spec fn is_unreserved(b: u8) -> bool {
    ||| 0x61 <= b <= 0x7a
    ||| 0x41 <= b <= 0x5a
    ||| 0x30 <= b <= 0x39
    ||| b == 0x2d
    ||| b == 0x5f
    ||| b == 0x2e
    ||| b == 0x7e
}

/// The upper case hexadecimal digit `d`.
pub open spec fn hex_digit(d: int) -> char {
    if d < 10 {
        (48 + d) as char
    } else {
        (55 + d) as char
    }
}

/// What one byte becomes.
pub open spec fn encoded_byte(b: u8) -> Seq<char> {
    if is_unreserved(b) {
        seq![b as char]
    } else {
        seq!['%', hex_digit(b as int / 16), hex_digit(b as int % 16)]
    }
}

/// What a sequence of bytes becomes.
pub open spec fn percent_encoded(bytes: Seq<u8>) -> Seq<char>
    decreases bytes.len(),
{
    if bytes.len() == 0 {
        seq![]
    } else {
        encoded_byte(bytes[0]) + percent_encoded(bytes.drop_first())
    }
}

/// What a hexadecimal digit stands for.
pub open spec fn hex_number(b: u8) -> Option<u8> {
    if 0x30 <= b <= 0x39 {
        Some((b - 0x30) as u8)
    } else if 0x61 <= b <= 0x66 {
        Some((b - 0x61 + 10) as u8)
    } else if 0x41 <= b <= 0x46 {
        Some((b - 0x41 + 10) as u8)
    } else {
        None
    }
}

/// The bytes that an encoded text stands for: `+` stands for a space, `%` and two
/// hexadecimal digits for a byte, every other byte for itself. There are none if a
/// `%` is not followed by two hexadecimal digits.
pub open spec fn percent_decoded(s: Seq<u8>) -> Option<Seq<u8>>
    decreases s.len(),
{
    if s.len() == 0 {
        Some(seq![])
    } else if s[0] == 0x2b {
        prepend(0x20, percent_decoded(s.drop_first()))
    } else if s[0] == 0x25 {
        if s.len() < 3 {
            None
        } else {
            match (hex_number(s[1]), hex_number(s[2])) {
                (Some(high), Some(low)) => prepend(
                    (high * 16 + low) as u8,
                    percent_decoded(s.skip(3)),
                ),
                _ => None,
            }
        }
    } else {
        prepend(s[0], percent_decoded(s.drop_first()))
    }
}

/// `b` before what there is.
pub open spec fn prepend(b: u8, rest: Option<Seq<u8>>) -> Option<Seq<u8>> {
    match rest {
        Some(t) => Some(seq![b] + t),
        None => None,
    }
}

/// `s` in percent encoding.
pub open spec fn url_encoded(s: Seq<char>) -> Seq<char> {
    percent_encoded(encode_utf8(s))
}

/// The text that `s` is the percent encoding of, if there is one.
pub open spec fn url_decoded(s: Seq<char>) -> Option<Seq<char>> {
    match percent_decoded(encode_utf8(s)) {
        Some(bytes) => if valid_utf8(bytes) {
            Some(decode_utf8(bytes))
        } else {
            None
        },
        None => None,
    }
}

/// Calls `String::from_utf8`, which accepts valid UTF-8 and gives the text it encodes.
#[verifier::external_body]
pub(crate) fn text_from_utf8(bytes: Vec<u8>) -> (r: Option<String>)
    ensures
        match r {
            Some(s) => valid_utf8(bytes@) && s@ == decode_utf8(bytes@),
            None => !valid_utf8(bytes@),
        },
{
    String::from_utf8(bytes).ok()
}

/// The upper case hexadecimal digit `d`.
fn hex_char(d: u8) -> (c: char)
    requires
        d < 16,
    ensures
        c == hex_digit(d as int),
{
    if d < 10 {
        (48 + d) as char
    } else {
        (55 + d) as char
    }
}

/// What a hexadecimal digit stands for.
pub fn hex_value(byte: u8) -> (r: Option<u8>)
    ensures
        r == hex_number(byte),
{
    if 0x30 <= byte && byte <= 0x39 {
        Some(byte - 0x30)
    } else if 0x61 <= byte && byte <= 0x66 {
        Some(byte - 0x61 + 10)
    } else if 0x41 <= byte && byte <= 0x46 {
        Some(byte - 0x41 + 10)
    } else {
        None
    }
}

/// `value` in percent encoding.
pub fn url_encode(value: &str) -> (r: String)
    ensures
        r@ == url_encoded(value@),
{
    let bytes = value.as_bytes();
    let mut out = String::new();
    let n: usize = bytes.len();
    assert(bytes@.skip(0) =~= bytes@);
    for i in 0..n
        invariant
            n == bytes@.len(),
            percent_encoded(bytes@) =~= out@ + percent_encoded(bytes@.skip(i as int)),
    {
        let b = bytes[i];
        let ghost before = out@;
        assert(bytes@.skip(i as int).drop_first() =~= bytes@.skip(i + 1));
        if (0x61 <= b && b <= 0x7a) || (0x41 <= b && b <= 0x5a) || (0x30 <= b && b <= 0x39) || b
            == 0x2d || b == 0x5f || b == 0x2e || b == 0x7e {
            out.push(b as char);
        } else {
            out.push('%');
            out.push(hex_char(b / 16));
            out.push(hex_char(b % 16));
        }
        assert(out@ =~= before + encoded_byte(b));
    }
    out
}

/// The text that `value` is the percent encoding of, if there is one.
pub fn url_decode(value: &str) -> (r: Option<String>)
    ensures
        opt_string_view(r) == url_decoded(value@),
{
    let bytes = value.as_bytes();
    let n: usize = bytes.len();
    let mut decoded: Vec<u8> = Vec::new();
    let mut i: usize = 0;
    assert(bytes@.skip(0) =~= bytes@);
    proof {
        if let Some(t) = percent_decoded(bytes@) {
            assert(decoded@ + t =~= t);
        }
    }
    while i < n
        invariant
            n == bytes@.len(),
            i <= n,
            bytes@ == encode_utf8(value@),
            match percent_decoded(bytes@.skip(i as int)) {
                Some(t) => percent_decoded(bytes@) == Some(decoded@ + t),
                None => percent_decoded(bytes@) is None,
            },
        decreases n - i,
    {
        let ghost rest = bytes@.skip(i as int);
        let ghost before = decoded@;
        let b = bytes[i];
        if b == 0x25 {
            if n - i < 3 {
                return None;
            }
            match (hex_value(bytes[i + 1]), hex_value(bytes[i + 2])) {
                (Some(high), Some(low)) => {
                    decoded.push(high * 16 + low);
                    i += 3;
                    assert(rest.skip(3) =~= bytes@.skip(i as int));
                },
                _ => {
                    return None;
                },
            }
        } else {
            if b == 0x2b {
                decoded.push(0x20);
            } else {
                decoded.push(b);
            }
            i += 1;
            assert(rest.drop_first() =~= bytes@.skip(i as int));
        }
        proof {
            if let Some(t) = percent_decoded(bytes@.skip(i as int)) {
                assert(before + (seq![decoded@.last()] + t) =~= decoded@ + t);
            }
        }
    }
    assert(decoded@ + Seq::<u8>::empty() =~= decoded@);
    text_from_utf8(decoded)
}

// ---------------------------------------------------------------------------
// HTML escaping
// ---------------------------------------------------------------------------

/// What one character becomes in HTML text.
pub open spec fn escaped_char(c: char) -> Seq<char> {
    if c == '&' {
        "&amp;"@
    } else if c == '<' {
        "&lt;"@
    } else if c == '>' {
        "&gt;"@
    } else if c == '"' {
        "&quot;"@
    } else if c == '\'' {
        "&#39;"@
    } else {
        seq![c]
    }
}

/// What a text becomes in HTML text.
pub open spec fn html_escaped(s: Seq<char>) -> Seq<char>
    decreases s.len(),
{
    if s.len() == 0 {
        seq![]
    } else {
        escaped_char(s[0]) + html_escaped(s.drop_first())
    }
}

/// `value` as HTML text.
pub fn escape_html(value: &str) -> (r: String)
    ensures
        r@ == html_escaped(value@),
{
    let v = chars_of(value);
    let n: usize = v.len();
    let mut out = String::new();
    assert(v@.skip(0) =~= v@);
    for i in 0..n
        invariant
            n == v@.len(),
            html_escaped(v@) =~= out@ + html_escaped(v@.skip(i as int)),
    {
        let ghost before = out@;
        let c = v[i];
        assert(v@.skip(i as int).drop_first() =~= v@.skip(i + 1));
        if c == '&' {
            out.append("&amp;");
        } else if c == '<' {
            out.append("&lt;");
        } else if c == '>' {
            out.append("&gt;");
        } else if c == '"' {
            out.append("&quot;");
        } else if c == '\'' {
            out.append("&#39;");
        } else {
            out.push(c);
        }
        assert(out@ =~= before + escaped_char(c));
    }
    out
}

// ---------------------------------------------------------------------------
// Laws
// ---------------------------------------------------------------------------

/// An encoded byte decodes to that byte, whatever follows it.
proof fn lemma_decode_encoded_byte(b: u8, rest: Seq<u8>)
    ensures
        percent_decoded(ascii_bytes(encoded_byte(b)) + rest) == prepend(b, percent_decoded(rest)),
{
    let s = ascii_bytes(encoded_byte(b)) + rest;
    if is_unreserved(b) {
        assert(s[0] == b);
        assert(s.drop_first() =~= rest);
    } else {
        assert(s[0] == 0x25);
        assert(s.skip(3) =~= rest);
        let high = b as int / 16;
        let low = b as int % 16;
        assert(s[1] == hex_digit(high) as u8);
        assert(s[2] == hex_digit(low) as u8);
        assert(hex_number(s[1]) == Some(high as u8));
        assert(hex_number(s[2]) == Some(low as u8));
    }
}

/// ASCII characters as bytes.
pub open spec fn ascii_bytes(s: Seq<char>) -> Seq<u8> {
    Seq::new(s.len(), |i: int| s[i] as u8)
}

/// Encoded bytes are unreserved characters and percent signs.
pub proof fn lemma_percent_encoded_chars(bytes: Seq<u8>)
    ensures
        forall|i: int|
            0 <= i < percent_encoded(bytes).len() ==> {
                let c = #[trigger] percent_encoded(bytes)[i];
                c == '%' || (c < '\u{80}' && is_unreserved(c as u8))
            },
    decreases bytes.len(),
{
    if bytes.len() > 0 {
        let head = encoded_byte(bytes[0]);
        let tail = percent_encoded(bytes.drop_first());
        lemma_percent_encoded_chars(bytes.drop_first());
        assert forall|i: int| 0 <= i < percent_encoded(bytes).len() implies {
            let c = #[trigger] percent_encoded(bytes)[i];
            c == '%' || (c < '\u{80}' && is_unreserved(c as u8))
        } by {
            if i < head.len() {
                assert(percent_encoded(bytes)[i] == head[i]);
            } else {
                assert(percent_encoded(bytes)[i] == tail[i - head.len()]);
            }
        }
    }
}

/// Encoded bytes decode to themselves.
proof fn lemma_decode_encoded(bytes: Seq<u8>)
    ensures
        percent_decoded(ascii_bytes(percent_encoded(bytes))) == Some(bytes),
    decreases bytes.len(),
{
    if bytes.len() == 0 {
        assert(ascii_bytes(percent_encoded(bytes)) =~= seq![]);
        assert(bytes =~= seq![]);
    } else {
        let tail = percent_encoded(bytes.drop_first());
        lemma_decode_encoded(bytes.drop_first());
        lemma_decode_encoded_byte(bytes[0], ascii_bytes(tail));
        assert(ascii_bytes(percent_encoded(bytes)) =~= ascii_bytes(encoded_byte(bytes[0]))
            + ascii_bytes(tail));
        assert(seq![bytes[0]] + bytes.drop_first() =~= bytes);
    }
}

/// No character comes before the null character.
proof fn lemma_least_char(c: char)
    ensures
        '\0' <= c,
{
}

/// Decoding what was encoded gives the text back, for every text.
pub proof fn law_url_round_trip(s: Seq<char>)
    ensures
        url_decoded(url_encoded(s)) == Some(s),
{
    let bytes = encode_utf8(s);
    let coded = percent_encoded(bytes);
    lemma_percent_encoded_chars(bytes);
    assert(is_ascii_chars(coded)) by {
        assert forall|i: int| 0 <= i < coded.len() implies '\0' <= #[trigger] coded[i]
            <= '\u{7f}' by {
            let c = percent_encoded(bytes)[i];
            assert(c == '%' || c < '\u{80}');
            assert(c <= '\u{7f}');
            lemma_least_char(c);
        }
    }
    is_ascii_chars_encode_utf8(coded);
    assert(encode_utf8(coded) =~= ascii_bytes(coded)) by {
        assert forall|i: int| 0 <= i < coded.len() implies encode_utf8(coded)[i] == ascii_bytes(
            coded,
        )[i] by {
            assert(coded[i] as u8 == encode_utf8(coded)[i]);
        }
    }
    lemma_decode_encoded(bytes);
    encode_utf8_valid_utf8(s);
    encode_utf8_decode_utf8(s);
}

/// A query of one parameter whose value is an encoded text gives that text back.
pub proof fn law_encoded_param(before: Seq<char>, name: Seq<char>, s: Seq<char>)
    requires
        !before.contains('?'),
        !name.contains('='),
        !name.contains('&'),
    ensures
        path_query_value(before + seq!['?'] + (name + seq!['='] + url_encoded(s)), name) == Some(
            url_encoded(s),
        ),
{
    let value = url_encoded(s);
    let query = name + seq!['='] + value;
    lemma_split_once_char_of(before, '?', query);
    lemma_percent_encoded_chars(encode_utf8(s));
    assert(!query.contains('&')) by {
        assert forall|i: int| 0 <= i < query.len() implies query[i] != '&' by {
            if i < name.len() {
                assert(name.contains(name[i]));
            } else if i > name.len() {
                let c = percent_encoded(encode_utf8(s))[i - name.len() - 1];
            }
        }
    }
    assert(pieces(query, '&') =~= seq![query]);
    lemma_split_once_char_of(name, '=', value);
}

/// Escaped text holds no character that opens or closes a tag or an attribute.
pub proof fn law_escaped_is_inert(s: Seq<char>)
    ensures
        !html_escaped(s).contains('<'),
        !html_escaped(s).contains('>'),
        !html_escaped(s).contains('"'),
        !html_escaped(s).contains('\''),
    decreases s.len(),
{
    reveal_strlit("&amp;");
    reveal_strlit("&lt;");
    reveal_strlit("&gt;");
    reveal_strlit("&quot;");
    reveal_strlit("&#39;");
    if s.len() > 0 {
        law_escaped_is_inert(s.drop_first());
        let head = escaped_char(s[0]);
        let tail = html_escaped(s.drop_first());
        assert forall|i: int| 0 <= i < html_escaped(s).len() implies ({
            let c = #[trigger] html_escaped(s)[i];
            c != '<' && c != '>' && c != '"' && c != '\''
        }) by {
            if i < head.len() {
                assert(html_escaped(s)[i] == head[i]);
            } else {
                assert(html_escaped(s)[i] == tail[i - head.len()]);
                assert(tail.contains(tail[i - head.len()]));
            }
        }
    }
}

/// A query gives a name the value of the first of its parts `key=value` whose key is the
/// name; a part without an equals sign gives nothing. The query of a path is what follows
/// its first question mark.
pub proof fn law_first_parameter_counts(
    before: Seq<char>,
    key: Seq<char>,
    value: Seq<char>,
    bare: Seq<char>,
    rest: Seq<char>,
    name: Seq<char>,
)
    requires
        !before.contains('?'),
        !key.contains('='),
        !key.contains('&'),
        !value.contains('&'),
        !bare.contains('='),
        !bare.contains('&'),
    ensures
        query_param(key + seq!['='] + value, name) == (if key == name {
            Some(value)
        } else {
            None
        }),
        query_param(key + seq!['='] + value + seq!['&'] + rest, name) == (if key == name {
            Some(value)
        } else {
            query_param(rest, name)
        }),
        query_param(bare, name) is None,
        query_param(bare + seq!['&'] + rest, name) == query_param(rest, name),
        path_query_value(before + seq!['?'] + rest, name) == query_param(rest, name),
        path_query_value(before, name) is None,
{
    let part = key + seq!['='] + value;
    assert(!part.contains('&')) by {
        assert forall|i: int| 0 <= i < part.len() implies part[i] != '&' by {
            if i < key.len() {
                assert(key.contains(key[i]));
            } else if i > key.len() {
                assert(value.contains(value[i - key.len() - 1]));
            }
        }
    }
    law_pieces(part, '&', rest);
    law_pieces(bare, '&', rest);
    lemma_split_once_char_of(key, '=', value);
    lemma_split_once_char_of(before, '?', rest);
    reveal_with_fuel(param_value, 2);
    assert(seq![part].drop_first() =~= seq![]);
    assert(seq![bare].drop_first() =~= seq![]);
    assert((seq![part] + pieces(rest, '&')).drop_first() =~= pieces(rest, '&'));
    assert((seq![bare] + pieces(rest, '&')).drop_first() =~= pieces(rest, '&'));
}

/// The digit that an upper case hexadecimal character stands for.
pub open spec fn upper_hex(c: char) -> int {
    if '0' <= c <= '9' {
        c as int - '0' as int
    } else if 'A' <= c <= 'F' {
        c as int - 'A' as int + 10
    } else {
        -1
    }
}

/// Bytes are encoded one by one: a letter, a digit or one of `-_.~` as it is, any other as a
/// percent sign and two upper case hexadecimal digits that make up the byte.
pub proof fn law_bytes_are_encoded_one_by_one(a: Seq<u8>, b: Seq<u8>, byte: u8, s: Seq<char>)
    ensures
        percent_encoded(a + b) == percent_encoded(a) + percent_encoded(b),
        ({
            let c = byte as char;
            let one = percent_encoded(seq![byte]);
            if 'a' <= c <= 'z' || 'A' <= c <= 'Z' || '0' <= c <= '9' || c == '-' || c == '_' || c
                == '.' || c == '~' {
                one == seq![c]
            } else {
                &&& one.len() == 3
                &&& one[0] == '%'
                &&& 0 <= upper_hex(one[1]) < 16
                &&& 0 <= upper_hex(one[2]) < 16
                &&& upper_hex(one[1]) * 16 + upper_hex(one[2]) == byte
            }
        }),
        url_encoded(s) == percent_encoded(encode_utf8(s)),
    decreases a.len(),
{
    reveal_with_fuel(percent_encoded, 2);
    assert(seq![byte].drop_first() =~= seq![]);
    let one = percent_encoded(seq![byte]);
    assert(one =~= encoded_byte(byte));
    if a.len() == 0 {
        assert(a + b =~= b);
        assert(percent_encoded(a) + percent_encoded(b) =~= percent_encoded(b));
    } else {
        assert((a + b).drop_first() =~= a.drop_first() + b);
        law_bytes_are_encoded_one_by_one(a.drop_first(), b, byte, s);
        assert(percent_encoded(a + b) =~= percent_encoded(a) + percent_encoded(b));
    }
}

/// What a hexadecimal byte, upper or lower case, stands for; -1 if it is none.
pub open spec fn either_hex(b: u8) -> int {
    let c = b as char;
    if '0' <= c <= '9' {
        b - 48
    } else if 'a' <= c <= 'f' {
        b - 97 + 10
    } else if 'A' <= c <= 'F' {
        b - 65 + 10
    } else {
        -1
    }
}

/// Bytes are decoded from the front: a plus sign to a space, a percent sign and two
/// hexadecimal digits to the byte that they make up, any other byte to itself. A percent
/// sign without two such digits after it makes all of it undecodable, and so does
/// anything further on that is.
pub proof fn law_bytes_are_decoded_from_the_front(b: u8, high: u8, low: u8, rest: Seq<u8>)
    ensures
        percent_decoded(seq![]) == Some(Seq::<u8>::empty()),
        b != 37 ==> percent_decoded(seq![b] + rest) == match percent_decoded(rest) {
            Some(tail) => Some(
                seq![
                    if b == 43 {
                        32u8
                    } else {
                        b
                    },
                ] + tail,
            ),
            None => None,
        },
        percent_decoded(seq![37u8, high, low] + rest) == (if either_hex(high) < 0 || either_hex(low)
            < 0 {
            None
        } else {
            match percent_decoded(rest) {
                Some(tail) => Some(seq![(either_hex(high) * 16 + either_hex(low)) as u8] + tail),
                None => None,
            }
        }),
        percent_decoded(seq![37u8]) is None,
        percent_decoded(seq![37u8, high]) is None,
{
    assert((seq![b] + rest).drop_first() =~= rest);
    assert((seq![37u8, high, low] + rest).skip(3) =~= rest);
}

/// A text decodes to the text of the bytes that its own bytes decode to, if these are
/// UTF-8.
pub proof fn law_text_is_decoded_by_bytes(s: Seq<char>, t: Seq<char>)
    ensures
        url_decoded(s) == Some(t) <==> percent_decoded(encode_utf8(s)) == Some(encode_utf8(t)),
{
    encode_utf8_valid_utf8(t);
    encode_utf8_decode_utf8(t);
    if let Some(bytes) = percent_decoded(encode_utf8(s)) {
        if valid_utf8(bytes) {
            decode_utf8_encode_utf8(bytes);
        }
    }
}

/// Text is escaped character by character: each of the five that have a meaning in a page
/// becomes its reference, and every other stays as it is.
pub proof fn law_characters_are_escaped_one_by_one(a: Seq<char>, b: Seq<char>, c: char)
    ensures
        html_escaped(a + b) == html_escaped(a) + html_escaped(b),
        html_escaped(seq!['&']) == seq!['&', 'a', 'm', 'p', ';'],
        html_escaped(seq!['<']) == seq!['&', 'l', 't', ';'],
        html_escaped(seq!['>']) == seq!['&', 'g', 't', ';'],
        html_escaped(seq!['"']) == seq!['&', 'q', 'u', 'o', 't', ';'],
        html_escaped(seq!['\'']) == seq!['&', '#', '3', '9', ';'],
        c != '&' && c != '<' && c != '>' && c != '"' && c != '\'' ==> html_escaped(seq![c])
            == seq![c],
    decreases a.len(),
{
    reveal_with_fuel(html_escaped, 2);
    reveal_strlit("&amp;");
    reveal_strlit("&lt;");
    reveal_strlit("&gt;");
    reveal_strlit("&quot;");
    reveal_strlit("&#39;");
    assert(seq!['&'].drop_first() =~= seq![]);
    assert(seq!['<'].drop_first() =~= seq![]);
    assert(seq!['>'].drop_first() =~= seq![]);
    assert(seq!['"'].drop_first() =~= seq![]);
    assert(seq!['\''].drop_first() =~= seq![]);
    assert(seq![c].drop_first() =~= seq![]);
    assert(html_escaped(seq!['&']) =~= seq!['&', 'a', 'm', 'p', ';']);
    assert(html_escaped(seq!['<']) =~= seq!['&', 'l', 't', ';']);
    assert(html_escaped(seq!['>']) =~= seq!['&', 'g', 't', ';']);
    assert(html_escaped(seq!['"']) =~= seq!['&', 'q', 'u', 'o', 't', ';']);
    assert(html_escaped(seq!['\'']) =~= seq!['&', '#', '3', '9', ';']);
    assert(html_escaped(seq![c]) =~= escaped_char(c));
    if a.len() == 0 {
        assert(a + b =~= b);
        assert(html_escaped(a) + html_escaped(b) =~= html_escaped(b));
    } else {
        assert((a + b).drop_first() =~= a.drop_first() + b);
        law_characters_are_escaped_one_by_one(a.drop_first(), b, c);
        assert(html_escaped(a + b) =~= html_escaped(a) + html_escaped(b));
    }
}

} // verus!
