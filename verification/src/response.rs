//! The responses that clients get, byte for byte.

use reqwest::header::HeaderMap;
use vstd::prelude::*;
use vstd::utf8::*;

use crate::config::as_text;
use crate::headers::{
    canonical_reason, header_fields, header_text, header_to_string, law_header_is_passed_as_it_is,
    reason_phrase,
};
use crate::text::{decimal, decimal_text, lemma_split_once_char_of, opt_view, pieces};

verus! {

// ---------------------------------------------------------------------------
// What they are
// ---------------------------------------------------------------------------

/// The head of a response of the registry interface.
pub open spec fn registry_head(
    status: Seq<char>,
    content_type: Seq<char>,
    digest: Option<Seq<char>>,
    length: nat,
) -> Seq<char> {
    "HTTP/1.1 "@ + status
        + "\r\nDocker-Distribution-Api-Version: registry/2.0\r\nContent-Type: "@ + content_type
        + "\r\nContent-Length: "@ + decimal(length) + "\r\nConnection: close\r\n"@ + digest_line(
        digest,
    ) + "\r\n"@
}

/// The header line that names a digest, if there is one.
pub open spec fn digest_line(digest: Option<Seq<char>>) -> Seq<char> {
    match digest {
        Some(value) => "Docker-Content-Digest: "@ + value + "\r\n"@,
        None => seq![],
    }
}

/// A response of the registry interface; one with the head only still gives the
/// length of the body.
pub open spec fn registry_response(
    status: Seq<char>,
    content_type: Seq<char>,
    digest: Option<Seq<char>>,
    body: Seq<u8>,
    head_only: bool,
) -> Seq<u8> {
    encode_utf8(registry_head(status, content_type, digest, body.len())) + (if head_only {
        seq![]
    } else {
        body
    })
}

/// A response with a text of the given type as its body.
pub open spec fn typed_response(
    status: Seq<char>,
    content_type: Seq<char>,
    body: Seq<char>,
) -> Seq<u8> {
    encode_utf8(
        "HTTP/1.1 "@ + status + "\r\nContent-Type: "@ + content_type
            + "; charset=utf-8\r\nContent-Length: "@ + decimal(encode_utf8(body).len())
            + "\r\nConnection: close\r\n\r\n"@ + body,
    )
}

/// A response with plain text as its body.
pub open spec fn text_response(status: Seq<char>, body: Seq<char>) -> Seq<u8> {
    typed_response(status, "text/plain"@, body)
}

/// A response with a page as its body.
pub open spec fn html_response(status: Seq<char>, body: Seq<char>) -> Seq<u8> {
    typed_response(status, "text/html"@, body)
}

/// A response that sends the client on to another place.
pub open spec fn redirect_response(location: Seq<char>) -> Seq<u8> {
    encode_utf8(
        "HTTP/1.1 303 See Other\r\nLocation: "@ + location
            + "\r\nContent-Length: 0\r\nConnection: close\r\n\r\n"@,
    )
}

/// A status code with its reason phrase, `Error` if it has none.
pub open spec fn status_text(status: nat, reason: Option<Seq<char>>) -> Seq<char> {
    match reason {
        Some(phrase) => decimal(status) + " "@ + phrase,
        None => decimal(status) + " Error"@,
    }
}

/// The content type that the headers give, a general one if they give none.
pub open spec fn content_type_of(headers: HeaderMap) -> Seq<char> {
    match header_text(headers, "content-type"@) {
        Some(value) => value,
        None => "application/octet-stream"@,
    }
}

/// The digest that the headers give, if they give one.
pub open spec fn digest_of(headers: HeaderMap) -> Option<Seq<char>> {
    header_text(headers, "docker-content-digest"@)
}

/// The response that passes on an upstream's answer.
pub open spec fn upstream_response(
    status: u16,
    headers: HeaderMap,
    body: Seq<u8>,
    head_only: bool,
) -> Seq<u8> {
    registry_response(
        status_text(status as nat, reason_phrase(status)),
        content_type_of(headers),
        digest_of(headers),
        body,
        head_only,
    )
}

// ---------------------------------------------------------------------------
// Writing them
// ---------------------------------------------------------------------------

/// Appends bytes.
pub fn put_bytes(out: &mut Vec<u8>, bytes: &[u8])
    ensures
        final(out)@ == old(out)@ + bytes@,
{
    let ghost before = out@;
    out.extend_from_slice(bytes);
    assert(out@ =~= before + bytes@) by {
        assert forall|i: int| before.len() <= i < out@.len() implies out@[i] == bytes@[i
            - before.len()] by {
            assert(cloned(bytes@[i - before.len()], out@[i]));
        }
    }
}

/// Writes a response of the registry interface.
pub fn write_registry_response(
    out: &mut Vec<u8>,
    status: &str,
    content_type: &str,
    digest: Option<&str>,
    body: &[u8],
    head_only: bool,
)
    ensures
        final(out)@ == old(out)@ + registry_response(
            status@,
            content_type@,
            opt_view(digest),
            body@,
            head_only,
        ),
{
    let ghost before = out@;
    let mut head = "HTTP/1.1 ".to_string();
    head.append(status);
    head.append("\r\nDocker-Distribution-Api-Version: registry/2.0\r\nContent-Type: ");
    head.append(content_type);
    head.append("\r\nContent-Length: ");
    head.append(decimal_text(body.len() as u64).as_str());
    head.append("\r\nConnection: close\r\n");
    let mut line = String::new();
    if let Some(value) = digest {
        line = "Docker-Content-Digest: ".to_string();
        line.append(value);
        line.append("\r\n");
    }
    head.append(line.as_str());
    head.append("\r\n");
    put_bytes(out, head.as_str().as_bytes());
    if !head_only {
        put_bytes(out, body);
    }
    assert(out@ =~= before + registry_response(
        status@,
        content_type@,
        opt_view(digest),
        body@,
        head_only,
    ));
}

/// Writes a response with a text of the given type as its body.
fn write_typed_response(out: &mut Vec<u8>, status: &str, content_type: &str, body: &str)
    ensures
        final(out)@ == old(out)@ + typed_response(status@, content_type@, body@),
{
    let mut message = "HTTP/1.1 ".to_string();
    message.append(status);
    message.append("\r\nContent-Type: ");
    message.append(content_type);
    message.append("; charset=utf-8\r\nContent-Length: ");
    message.append(decimal_text(body.as_bytes().len() as u64).as_str());
    message.append("\r\nConnection: close\r\n\r\n");
    message.append(body);
    put_bytes(out, message.as_str().as_bytes());
}

/// Writes a response with plain text as its body.
pub fn write_text_response(out: &mut Vec<u8>, status: &str, body: &str)
    ensures
        final(out)@ == old(out)@ + text_response(status@, body@),
{
    write_typed_response(out, status, "text/plain", body);
}

/// Writes a response with a page as its body.
pub fn write_html_response(out: &mut Vec<u8>, status: &str, body: &str)
    ensures
        final(out)@ == old(out)@ + html_response(status@, body@),
{
    write_typed_response(out, status, "text/html", body);
}

/// Writes a response that sends the client on to another place.
pub fn write_redirect_response(out: &mut Vec<u8>, location: &str)
    ensures
        final(out)@ == old(out)@ + redirect_response(location@),
{
    let mut message = "HTTP/1.1 303 See Other\r\nLocation: ".to_string();
    message.append(location);
    message.append("\r\nContent-Length: 0\r\nConnection: close\r\n\r\n");
    put_bytes(out, message.as_str().as_bytes());
}

/// A status code with its reason phrase.
pub fn status_line(status: u16, reason: Option<&str>) -> (r: String)
    ensures
        r@ == status_text(status as nat, opt_view(reason)),
{
    match reason {
        Some(phrase) => decimal_text(status as u64).concat(" ").concat(phrase),
        None => decimal_text(status as u64).concat(" Error"),
    }
}

/// The content type that the headers give, a general one if they give none.
pub fn content_type(headers: &HeaderMap) -> (r: String)
    ensures
        r@ == content_type_of(*headers),
{
    match header_to_string(headers, "content-type") {
        Some(value) => value,
        None => "application/octet-stream".to_string(),
    }
}

/// Writes the response that passes on an upstream's answer.
pub fn write_upstream_response(
    out: &mut Vec<u8>,
    status: u16,
    headers: &HeaderMap,
    body: &[u8],
    head_only: bool,
)
    ensures
        final(out)@ == old(out)@ + upstream_response(status, *headers, body@, head_only),
{
    let reason = canonical_reason(status);
    let line = status_line(status, as_text(&reason));
    let kind = content_type(headers);
    let digest = header_to_string(headers, "docker-content-digest");
    write_registry_response(
        out,
        line.as_str(),
        kind.as_str(),
        as_text(&digest),
        body,
        head_only,
    );
}

// ---------------------------------------------------------------------------
// Laws
// ---------------------------------------------------------------------------

/// The response to `HEAD` is the response to `GET` without the body.
pub proof fn law_head_is_get_without_body(
    status: Seq<char>,
    content_type: Seq<char>,
    digest: Option<Seq<char>>,
    body: Seq<u8>,
)
    ensures
        registry_response(status, content_type, digest, body, false) == registry_response(
            status,
            content_type,
            digest,
            body,
            true,
        ) + body,
{
    let head = encode_utf8(registry_head(status, content_type, digest, body.len()));
    assert(head + seq![] =~= head);
}

/// The lines of the head of a response of the registry interface, each without the line
/// feed that ends it, and what follows the last line feed: nothing.
pub open spec fn head_lines(
    status: Seq<char>,
    content_type: Seq<char>,
    digest: Option<Seq<char>>,
    length: nat,
) -> Seq<Seq<char>> {
    let end = seq!['\r'];
    let before = seq![
        "HTTP/1.1 "@ + status + end,
        "Docker-Distribution-Api-Version: registry/2.0"@ + end,
        "Content-Type: "@ + content_type + end,
        "Content-Length: "@ + decimal(length) + end,
        "Connection: close"@ + end,
    ];
    let after = seq![end, seq![]];
    match digest {
        Some(value) => before + seq!["Docker-Content-Digest: "@ + value + end] + after,
        None => before + after,
    }
}

/// A number in decimal has no line feed in it.
proof fn lemma_decimal_is_one_line(n: nat)
    ensures
        !decimal(n).contains('\n'),
    decreases n,
{
    if n >= 10 {
        lemma_decimal_is_one_line(n / 10);
        let front = decimal(n / 10);
        assert forall|i: int| 0 <= i < decimal(n).len() implies decimal(n)[i] != '\n' by {
            if i < front.len() {
                assert(front.contains(front[i]));
            }
        }
    }
}

/// A line without a line feed in it is the first of the lines that it begins.
proof fn lemma_first_of_lines(line: Seq<char>, rest: Seq<char>)
    requires
        !line.contains('\n'),
    ensures
        pieces(line + seq!['\n'] + rest, '\n') == seq![line] + pieces(rest, '\n'),
{
    lemma_split_once_char_of(line, '\n', rest);
}

/// A label, a value and a carriage return make a line, if none has a line feed in it.
proof fn lemma_is_one_line(label: Seq<char>, value: Seq<char>)
    requires
        !label.contains('\n'),
        !value.contains('\n'),
    ensures
        !(label + value + seq!['\r']).contains('\n'),
{
    let line = label + value + seq!['\r'];
    assert forall|i: int| 0 <= i < line.len() implies line[i] != '\n' by {
        if i < label.len() {
            assert(label.contains(label[i]));
        } else if i < label.len() + value.len() {
            assert(value.contains(value[i - label.len()]));
        }
    }
}

/// The head of a response of the registry interface has these lines and no other, if what
/// they are made of has no line feed in it; so there is a line with a digest exactly if
/// there is a digest.
#[verifier::rlimit(40)]
#[verifier::spinoff_prover]
pub proof fn law_head_has_these_lines(
    status: Seq<char>,
    content_type: Seq<char>,
    digest: Option<Seq<char>>,
    length: nat,
)
    requires
        !status.contains('\n'),
        !content_type.contains('\n'),
        digest matches Some(value) ==> !value.contains('\n'),
    ensures
        pieces(registry_head(status, content_type, digest, length), '\n') == head_lines(
            status,
            content_type,
            digest,
            length,
        ),
{
    reveal_strlit("HTTP/1.1 ");
    reveal_strlit("\r\nDocker-Distribution-Api-Version: registry/2.0\r\nContent-Type: ");
    reveal_strlit("Docker-Distribution-Api-Version: registry/2.0");
    reveal_strlit("Content-Type: ");
    reveal_strlit("\r\nContent-Length: ");
    reveal_strlit("Content-Length: ");
    reveal_strlit("\r\nConnection: close\r\n");
    reveal_strlit("Connection: close");
    reveal_strlit("Docker-Content-Digest: ");
    reveal_strlit("\r\n");
    let end = seq!['\r'];
    let feed = seq!['\n'];
    let nothing = Seq::<char>::empty();
    let l1 = "HTTP/1.1 "@ + status + end;
    let l2 = "Docker-Distribution-Api-Version: registry/2.0"@ + end;
    let l3 = "Content-Type: "@ + content_type + end;
    let l4 = "Content-Length: "@ + decimal(length) + end;
    let l5 = "Connection: close"@ + end;
    lemma_decimal_is_one_line(length);
    lemma_is_one_line("HTTP/1.1 "@, status);
    lemma_is_one_line("Docker-Distribution-Api-Version: registry/2.0"@, nothing);
    assert("Docker-Distribution-Api-Version: registry/2.0"@ + nothing
        =~= "Docker-Distribution-Api-Version: registry/2.0"@);
    lemma_is_one_line("Content-Type: "@, content_type);
    lemma_is_one_line("Content-Length: "@, decimal(length));
    lemma_is_one_line("Connection: close"@, nothing);
    assert("Connection: close"@ + nothing =~= "Connection: close"@);
    let tail = end + feed + nothing;
    lemma_first_of_lines(end, nothing);
    assert(pieces(nothing, '\n') =~= seq![nothing]);
    assert(pieces(tail, '\n') =~= seq![end, nothing]);
    let last = match digest {
        Some(value) => "Docker-Content-Digest: "@ + value + end + feed + tail,
        None => tail,
    };
    let lines = match digest {
        Some(value) => seq!["Docker-Content-Digest: "@ + value + end, end, nothing],
        None => seq![end, nothing],
    };
    assert(pieces(last, '\n') == lines) by {
        if let Some(value) = digest {
            let l6 = "Docker-Content-Digest: "@ + value + end;
            lemma_is_one_line("Docker-Content-Digest: "@, value);
            lemma_first_of_lines(l6, tail);
            assert(seq![l6] + seq![end, nothing] =~= lines);
        }
    }
    let r5 = l5 + feed + last;
    let r4 = l4 + feed + r5;
    let r3 = l3 + feed + r4;
    let r2 = l2 + feed + r3;
    let r1 = l1 + feed + r2;
    lemma_first_of_lines(l5, last);
    lemma_first_of_lines(l4, r5);
    lemma_first_of_lines(l3, r4);
    lemma_first_of_lines(l2, r3);
    lemma_first_of_lines(l1, r2);
    assert(digest_line(digest) + "\r\n"@ =~= last);
    assert("\r\nConnection: close\r\n"@ =~= end + feed + l5 + feed);
    assert("\r\nContent-Length: "@ =~= end + feed + "Content-Length: "@);
    assert("\r\nDocker-Distribution-Api-Version: registry/2.0\r\nContent-Type: "@ =~= end + feed + l2
        + feed + "Content-Type: "@);
    assert(registry_head(status, content_type, digest, length) =~= r1);
    assert(pieces(r1, '\n') =~= head_lines(status, content_type, digest, length));
}

/// The content type that is passed on and stored is the text of the field that upstream
/// gave, character by character; only if there is none, or it is not visible ASCII text,
/// is it a general one.
pub proof fn law_content_type_is_passed_on_as_it_is(headers: HeaderMap)
    ensures
        ({
            let fields = header_fields(headers);
            let name = "content-type"@;
            let r = content_type_of(headers);
            if fields.contains_key(name) && forall|i: int|
                0 <= i < fields[name].len() ==> 32 <= #[trigger] fields[name][i] <= 126
                    || fields[name][i] == 9 {
                &&& r.len() == fields[name].len()
                &&& forall|i: int|
                    0 <= i < r.len() ==> #[trigger] r[i] as int == fields[name][i] as int
            } else {
                r == "application/octet-stream"@
            }
        }),
{
    reveal_strlit("content-type");
    law_header_is_passed_as_it_is(headers, "content-type"@);
}

/// The digest that is passed on and stored is the text of the field that upstream gave,
/// character by character, and there is one exactly if that field is there and is visible
/// ASCII text.
pub proof fn law_digest_is_passed_on_as_it_is(headers: HeaderMap)
    ensures
        ({
            let fields = header_fields(headers);
            let name = "docker-content-digest"@;
            match digest_of(headers) {
                Some(r) => {
                    &&& fields.contains_key(name)
                    &&& r.len() == fields[name].len()
                    &&& forall|i: int|
                        0 <= i < r.len() ==> {
                            let b = #[trigger] fields[name][i];
                            r[i] as int == b as int && (32 <= b <= 126 || b == 9)
                        }
                },
                None => fields.contains_key(name) ==> exists|i: int|
                    0 <= i < fields[name].len() && {
                        let b = #[trigger] fields[name][i];
                        !(32 <= b <= 126 || b == 9)
                    },
            }
        }),
{
    reveal_strlit("docker-content-digest");
    law_header_is_passed_as_it_is(headers, "docker-content-digest"@);
}

/// A response of the registry interface is its head, which gives the length of the body,
/// and then the body, unless the head only is asked for.
pub proof fn law_body_follows_the_head(
    status: Seq<char>,
    content_type: Seq<char>,
    digest: Option<Seq<char>>,
    body: Seq<u8>,
)
    ensures
        ({
            let head = encode_utf8(registry_head(status, content_type, digest, body.len()));
            &&& registry_response(status, content_type, digest, body, true) == head
            &&& registry_response(status, content_type, digest, body, false) == head + body
            &&& registry_response(status, content_type, digest, body, false).skip(head.len() as int)
                == body
        }),
        registry_head(status, content_type, digest, body.len()) == "HTTP/1.1 "@ + status
            + "\r\nDocker-Distribution-Api-Version: registry/2.0\r\nContent-Type: "@ + content_type
            + "\r\nContent-Length: "@ + decimal(body.len()) + "\r\nConnection: close\r\n"@ + (
        match digest {
            Some(value) => "Docker-Content-Digest: "@ + value + "\r\n"@,
            None => seq![],
        }) + "\r\n"@,
{
    let head = encode_utf8(registry_head(status, content_type, digest, body.len()));
    assert(head + seq![] =~= head);
    assert((head + body).skip(head.len() as int) =~= body);
}

/// An answer of upstream is passed on with its status code, the phrase that goes with it,
/// its content type, its digest and its body.
pub proof fn law_answer_is_passed_on(
    status: u16,
    headers: HeaderMap,
    body: Seq<u8>,
    head_only: bool,
    code: nat,
    phrase: Seq<char>,
)
    ensures
        exists|line: Seq<char>|
            {
                &&& #[trigger] registry_response(
                    line,
                    content_type_of(headers),
                    digest_of(headers),
                    body,
                    head_only,
                ) == upstream_response(status, headers, body, head_only)
                &&& line == (match reason_phrase(status) {
                    Some(reason) => decimal(status as nat) + " "@ + reason,
                    None => decimal(status as nat) + " Error"@,
                })
            },
        status_text(code, Some(phrase)) == decimal(code) + " "@ + phrase,
        status_text(code, None) == decimal(code) + " Error"@,
{
    let line = status_text(status as nat, reason_phrase(status));
    assert(upstream_response(status, headers, body, head_only) == registry_response(
        line,
        content_type_of(headers),
        digest_of(headers),
        body,
        head_only,
    ));
}

/// A response with text has these header lines, gives the length of the text in bytes, and
/// ends with the text; a redirect has no body and names its place.
pub proof fn law_other_responses(status: Seq<char>, body: Seq<char>)
    ensures
        text_response(status, body) == encode_utf8(
            "HTTP/1.1 "@ + status
                + "\r\nContent-Type: text/plain; charset=utf-8\r\nContent-Length: "@ + decimal(
                encode_utf8(body).len(),
            ) + "\r\nConnection: close\r\n\r\n"@ + body,
        ),
        html_response(status, body) == encode_utf8(
            "HTTP/1.1 "@ + status
                + "\r\nContent-Type: text/html; charset=utf-8\r\nContent-Length: "@ + decimal(
                encode_utf8(body).len(),
            ) + "\r\nConnection: close\r\n\r\n"@ + body,
        ),
        redirect_response(body) == encode_utf8(
            "HTTP/1.1 303 See Other\r\nLocation: "@ + body
                + "\r\nContent-Length: 0\r\nConnection: close\r\n\r\n"@,
        ),
{
    reveal_strlit("\r\nContent-Type: ");
    reveal_strlit("text/plain");
    reveal_strlit("text/html");
    reveal_strlit("; charset=utf-8\r\nContent-Length: ");
    reveal_strlit("\r\nContent-Type: text/plain; charset=utf-8\r\nContent-Length: ");
    reveal_strlit("\r\nContent-Type: text/html; charset=utf-8\r\nContent-Length: ");
    assert("\r\nContent-Type: "@ + "text/plain"@ + "; charset=utf-8\r\nContent-Length: "@
        =~= "\r\nContent-Type: text/plain; charset=utf-8\r\nContent-Length: "@);
    assert("\r\nContent-Type: "@ + "text/html"@ + "; charset=utf-8\r\nContent-Length: "@
        =~= "\r\nContent-Type: text/html; charset=utf-8\r\nContent-Length: "@);
    let length = decimal(encode_utf8(body).len());
    let end = "\r\nConnection: close\r\n\r\n"@;
    assert("HTTP/1.1 "@ + status + "\r\nContent-Type: "@ + "text/plain"@
        + "; charset=utf-8\r\nContent-Length: "@ + length + end + body =~= "HTTP/1.1 "@ + status
        + "\r\nContent-Type: text/plain; charset=utf-8\r\nContent-Length: "@ + length + end + body);
    assert("HTTP/1.1 "@ + status + "\r\nContent-Type: "@ + "text/html"@
        + "; charset=utf-8\r\nContent-Length: "@ + length + end + body =~= "HTTP/1.1 "@ + status
        + "\r\nContent-Type: text/html; charset=utf-8\r\nContent-Length: "@ + length + end + body);
}

/// The lines of a head: the status, the version of the interface, the content type, the
/// length of the body, that the connection is closed, the digest if there is one, and an
/// empty line.
pub proof fn law_lines_of_a_head(
    status: Seq<char>,
    content_type: Seq<char>,
    digest: Option<Seq<char>>,
    length: nat,
)
    requires
        !status.contains('\n'),
        !content_type.contains('\n'),
        digest matches Some(value) ==> !value.contains('\n'),
    ensures
        ({
            let lines = pieces(registry_head(status, content_type, digest, length), '\n');
            &&& lines.len() == (if digest is Some {
                8int
            } else {
                7
            })
            &&& lines[0] == "HTTP/1.1 "@ + status + seq!['\r']
            &&& lines[1] == "Docker-Distribution-Api-Version: registry/2.0"@ + seq!['\r']
            &&& lines[2] == "Content-Type: "@ + content_type + seq!['\r']
            &&& lines[3] == "Content-Length: "@ + decimal(length) + seq!['\r']
            &&& lines[4] == "Connection: close"@ + seq!['\r']
            &&& digest matches Some(value) ==> lines[5] == "Docker-Content-Digest: "@ + value
                + seq!['\r']
            &&& lines[lines.len() - 2] == seq!['\r']
            &&& lines.last() == Seq::<char>::empty()
        }),
{
    law_head_has_these_lines(status, content_type, digest, length);
}

} // verus!
