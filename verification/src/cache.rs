//! Cache entries: what they hold and how long they last.

use vstd::prelude::*;
use vstd::utf8::*;

use crate::encoding::text_from_utf8;
use crate::text::{opt_string_view, opt_view, trim, trim_text};

verus! {

// ---------------------------------------------------------------------------
// Age
// ---------------------------------------------------------------------------

/// How long ago an entry was written.
#[derive(Clone, Copy)]
pub struct Age {
    pub secs: u64,
    pub nanos: u32,
}

/// Whether an age is more than a number of seconds.
pub open spec fn is_older(age: Age, secs: u64) -> bool {
    age.secs > secs || (age.secs == secs && age.nanos > 0)
}

/// Whether an entry has outlived `ttl` seconds; one whose age is unknown, because it
/// was written later than now, counts as one that has.
pub open spec fn has_expired(age: Option<Age>, ttl: u64) -> bool {
    match age {
        Some(age) => is_older(age, ttl),
        None => true,
    }
}

/// Whether an entry may no longer be served: it has outlived `ttl`, or nothing is
/// ever served because `ttl` is zero.
pub open spec fn is_unservable(age: Option<Age>, ttl: u64) -> bool {
    ttl == 0 || has_expired(age, ttl)
}

/// Whether an entry has outlived `ttl` seconds.
pub fn is_cache_entry_expired(age: Option<Age>, ttl: u64) -> (r: bool)
    ensures
        r == has_expired(age, ttl),
        age matches Some(known) ==> (known.nanos < 1_000_000_000 ==> (r <==> known.secs
            * 1_000_000_000 + known.nanos > ttl * 1_000_000_000)),
{
    match age {
        Some(age) => age.secs > ttl || (age.secs == ttl && age.nanos > 0),
        None => true,
    }
}

/// How often, in seconds, expired entries are looked for: once in every `ttl`, but
/// at least once an hour and at most once a minute.
pub fn prune_interval_secs(ttl: u64) -> (r: u64)
    ensures
        60 <= r <= 3600,
        60 <= ttl <= 3600 ==> r == ttl,
        r == (if ttl < 60 {
            60
        } else if ttl > 3600 {
            3600
        } else {
            ttl
        }),
{
    if ttl < 60 {
        60
    } else if ttl > 3600 {
        3600
    } else {
        ttl
    }
}

// ---------------------------------------------------------------------------
// What an entry holds
// ---------------------------------------------------------------------------

/// A response out of the cache.
pub struct CachedResponse {
    pub content_type: String,
    pub digest: Option<String>,
    pub body: Vec<u8>,
    pub age: Option<Age>,
}

/// What a cached response is made of.
#[verifier::ext_equal]
pub struct CachedView {
    pub content_type: Seq<char>,
    pub digest: Option<Seq<char>>,
    pub body: Seq<u8>,
}

impl View for CachedResponse {
    type V = CachedView;

    open spec fn view(&self) -> CachedView {
        CachedView {
            content_type: self.content_type@,
            digest: opt_string_view(self.digest),
            body: self.body@,
        }
    }
}

/// The text of a file, if there is such a file and it holds text.
pub open spec fn file_text(file: Option<Seq<u8>>) -> Option<Seq<char>> {
    match file {
        Some(bytes) => if valid_utf8(bytes) {
            Some(decode_utf8(bytes))
        } else {
            None
        },
        None => None,
    }
}

/// What the files of an entry hold, given those with the content type and the digest.
pub open spec fn entry_read(
    content_type: Option<Seq<u8>>,
    digest: Option<Seq<u8>>,
    body: Seq<u8>,
) -> CachedView {
    CachedView {
        content_type: match file_text(content_type) {
            Some(text) => trim(text),
            None => "application/octet-stream"@,
        },
        digest: match file_text(digest) {
            Some(text) => Some(trim(text)),
            None => None,
        },
        body,
    }
}

/// What an optional file holds.
pub open spec fn opt_bytes_view(file: Option<Vec<u8>>) -> Option<Seq<u8>> {
    match file {
        Some(bytes) => Some(bytes@),
        None => None,
    }
}

/// The text of a file without the white space around it.
fn trimmed_text(file: Option<Vec<u8>>) -> (r: Option<String>)
    ensures
        opt_string_view(r) == match file_text(opt_bytes_view(file)) {
            Some(text) => Some(trim(text)),
            None => None,
        },
{
    match file {
        Some(bytes) => match text_from_utf8(bytes) {
            Some(text) => Some(trim_text(text.as_str()).to_string()),
            None => None,
        },
        None => None,
    }
}

/// The response that the files of an entry hold, if there is a file with a body.
pub fn read_cached_response(
    body: Option<Vec<u8>>,
    content_type: Option<Vec<u8>>,
    digest: Option<Vec<u8>>,
    age: Option<Age>,
) -> (r: Option<CachedResponse>)
    ensures
        match (r, body) {
            (Some(cached), Some(body)) => cached@ == entry_read(
                opt_bytes_view(content_type),
                opt_bytes_view(digest),
                body@,
            ) && cached.age == age && cached.body@ == body@,
            (None, None) => true,
            _ => false,
        },
{
    match body {
        Some(body) => {
            let content_type = match trimmed_text(content_type) {
                Some(text) => text,
                None => "application/octet-stream".to_string(),
            };
            let digest = trimmed_text(digest);
            Some(CachedResponse { content_type, digest, body, age })
        },
        None => None,
    }
}

/// Whether a cached response may no longer be served.
pub fn is_stale(cached: &CachedResponse, ttl: u64) -> (r: bool)
    ensures
        r == is_unservable(cached.age, ttl),
        cached.age matches Some(known) ==> (known.nanos < 1_000_000_000 ==> (r <==> ttl == 0
            || known.secs * 1_000_000_000 + known.nanos > ttl * 1_000_000_000)),
{
    if ttl == 0 {
        return true;
    }
    is_cache_entry_expired(cached.age, ttl)
}

/// A file of an entry.
pub struct EntryFile<'a> {
    pub name: &'static str,
    pub contents: &'a [u8],
}

/// The files that make up an entry, in the order in which they are written.
pub open spec fn entry_files(
    content_type: Seq<char>,
    digest: Option<Seq<char>>,
    body: Seq<u8>,
) -> Seq<(Seq<char>, Seq<u8>)> {
    let files = seq![("body"@, body), ("content-type"@, encode_utf8(content_type))];
    match digest {
        Some(value) => files.push(("digest"@, encode_utf8(value))),
        None => files,
    }
}

/// What the files of a list are.
pub open spec fn files_view(files: Seq<EntryFile>) -> Seq<(Seq<char>, Seq<u8>)> {
    files.map_values(|file: EntryFile| (file.name@, file.contents@))
}

/// The files to write for a response, in order.
pub fn write_cached_response<'a>(
    content_type: &'a str,
    digest: Option<&'a str>,
    body: &'a [u8],
) -> (r: Vec<EntryFile<'a>>)
    ensures
        files_view(r@) == entry_files(content_type@, opt_view(digest), body@),
        r@.len() == (if digest is Some {
            3nat
        } else {
            2
        }),
        r@[0].name@ == "body"@ && r@[0].contents@ == body@,
        r@[1].name@ == "content-type"@ && r@[1].contents@ == encode_utf8(content_type@),
        digest matches Some(value) ==> r@[2].name@ == "digest"@ && r@[2].contents@ == encode_utf8(
            value@,
        ),
{
    let mut files: Vec<EntryFile<'a>> = Vec::new();
    files.push(EntryFile { name: "body", contents: body });
    files.push(EntryFile { name: "content-type", contents: content_type.as_bytes() });
    if let Some(value) = digest {
        files.push(EntryFile { name: "digest", contents: value.as_bytes() });
    }
    assert(files_view(files@) =~= entry_files(content_type@, opt_view(digest), body@));
    files
}

/// A directory after files were written to it, each taking the place of an earlier
/// one of its name.
pub open spec fn after_writing(
    dir: Map<Seq<char>, Seq<u8>>,
    files: Seq<(Seq<char>, Seq<u8>)>,
) -> Map<Seq<char>, Seq<u8>>
    decreases files.len(),
{
    if files.len() == 0 {
        dir
    } else {
        after_writing(dir.insert(files[0].0, files[0].1), files.drop_first())
    }
}

/// The file of this name in a directory.
pub open spec fn file_in(dir: Map<Seq<char>, Seq<u8>>, name: Seq<char>) -> Option<Seq<u8>> {
    if dir.contains_key(name) {
        Some(dir[name])
    } else {
        None
    }
}

/// What is read from a directory to which a response was written is that response,
/// with the white space around its content type and digest gone. Whatever was in the
/// directory before makes no difference, but for the digest of an earlier response,
/// which stays if the new one has none.
pub proof fn law_read_gives_back_what_was_written(
    dir: Map<Seq<char>, Seq<u8>>,
    content_type: Seq<char>,
    digest: Option<Seq<char>>,
    body: Seq<u8>,
)
    ensures
        ({
            let after = after_writing(dir, entry_files(content_type, digest, body));
            &&& file_in(after, "body"@) == Some(body)
            &&& entry_read(file_in(after, "content-type"@), file_in(after, "digest"@), body)
                == (CachedView {
                content_type: trim(content_type),
                digest: match digest {
                    Some(value) => Some(trim(value)),
                    None => match file_text(file_in(dir, "digest"@)) {
                        Some(earlier) => Some(trim(earlier)),
                        None => None,
                    },
                },
                body,
            })
        }),
{
    reveal_with_fuel(after_writing, 4);
    reveal_strlit("body");
    reveal_strlit("content-type");
    reveal_strlit("digest");
    assert("body"@.len() != "content-type"@.len());
    assert("body"@.len() != "digest"@.len());
    assert("content-type"@.len() != "digest"@.len());
    let files = entry_files(content_type, digest, body);
    let d1 = dir.insert(files[0].0, files[0].1);
    let d2 = d1.insert(files[1].0, files[1].1);
    let t1 = files.drop_first();
    let t2 = t1.drop_first();
    assert(t1[0] == files[1]);
    encode_utf8_valid_utf8(content_type);
    encode_utf8_decode_utf8(content_type);
    if let Some(value) = digest {
        assert(t2[0] == files[2]);
        encode_utf8_valid_utf8(value);
        encode_utf8_decode_utf8(value);
        assert(t2.drop_first().len() == 0);
    } else {
        assert(t2.len() == 0);
    }
}

/// An entry that has outlived its time is never served; for a time other than zero,
/// one that has not is.
pub proof fn law_expired_entries_are_not_served(age: Option<Age>, ttl: u64)
    ensures
        has_expired(age, ttl) ==> is_unservable(age, ttl),
        ttl > 0 ==> is_unservable(age, ttl) == has_expired(age, ttl),
{
}

/// An entry has expired if and only if its age, in nanoseconds, is more than its time, or
/// is unknown. So one of fewer whole seconds has not, one of more has, and one that has
/// not expired has not expired with more time either.
pub proof fn law_expiry_is_by_time(age: Age, ttl: u64, longer: u64)
    requires
        age.nanos < 1_000_000_000,
    ensures
        has_expired(Some(age), ttl) <==> age.secs * 1_000_000_000 + age.nanos > ttl
            * 1_000_000_000,
        age.secs < ttl ==> !has_expired(Some(age), ttl),
        age.secs > ttl ==> has_expired(Some(age), ttl),
        ttl <= longer && !has_expired(Some(age), ttl) ==> !has_expired(Some(age), longer),
        has_expired(None, ttl),
        is_unservable(Some(age), ttl) <==> ttl == 0 || age.secs * 1_000_000_000 + age.nanos > ttl
            * 1_000_000_000,
        is_unservable(None, ttl),
{
}

/// The files of an entry are read as they are: text without the white space around it, and
/// in place of a content type that is missing or no text a general one; a digest that is
/// missing or no text is none.
pub proof fn law_files_are_read_as_they_are(
    content_type: Seq<char>,
    digest: Seq<char>,
    spoiled: Seq<u8>,
    other: Option<Seq<u8>>,
    body: Seq<u8>,
)
    requires
        !valid_utf8(spoiled),
    ensures
        entry_read(other, other, body).body == body,
        entry_read(Some(encode_utf8(content_type)), other, body).content_type == trim(content_type),
        entry_read(None, other, body).content_type == "application/octet-stream"@,
        entry_read(Some(spoiled), other, body).content_type == "application/octet-stream"@,
        entry_read(other, Some(encode_utf8(digest)), body).digest == Some(trim(digest)),
        entry_read(other, None, body).digest is None,
        entry_read(other, Some(spoiled), body).digest is None,
{
    encode_utf8_valid_utf8(content_type);
    encode_utf8_decode_utf8(content_type);
    encode_utf8_valid_utf8(digest);
    encode_utf8_decode_utf8(digest);
}

/// Writing an entry writes its body, its content type and, if there is one, its digest,
/// each as it is, and leaves all other files as they are.
pub proof fn law_entry_is_written_as_it_is(
    dir: Map<Seq<char>, Seq<u8>>,
    content_type: Seq<char>,
    digest: Option<Seq<char>>,
    body: Seq<u8>,
    name: Seq<char>,
)
    ensures
        file_in(after_writing(dir, entry_files(content_type, digest, body)), name) == (if name
            == "body"@ {
            Some(body)
        } else if name == "content-type"@ {
            Some(encode_utf8(content_type))
        } else if name == "digest"@ && digest is Some {
            Some(encode_utf8(digest->0))
        } else {
            file_in(dir, name)
        }),
{
    reveal_with_fuel(after_writing, 4);
    reveal_strlit("body");
    reveal_strlit("content-type");
    reveal_strlit("digest");
    assert("body"@.len() == 4 && "content-type"@.len() == 12 && "digest"@.len() == 6);
    let files = entry_files(content_type, digest, body);
    let t1 = files.drop_first();
    let t2 = t1.drop_first();
    assert(t1[0] == files[1]);
    if digest is Some {
        assert(t2[0] == files[2]);
        assert(t2.drop_first().len() == 0);
    } else {
        assert(t2.len() == 0);
    }
}

/// What is seen of a cached response is all that it holds.
pub proof fn law_cached_response_is_seen_whole(cached: CachedResponse, bytes: Vec<u8>)
    ensures
        cached@.content_type == cached.content_type@,
        cached@.digest == match cached.digest {
            Some(digest) => Some(digest@),
            None => None,
        },
        cached@.body == cached.body@,
        opt_bytes_view(Some(bytes)) == Some(bytes@),
        opt_bytes_view(None) is None,
{
}

} // verus!
