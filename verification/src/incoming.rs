//! Reading the head of a request.

use vstd::prelude::*;
use vstd::utf8::*;

use crate::response::put_bytes;

verus! {

/// How many bytes of a head may come without its end in sight.
pub const HEAD_LIMIT: usize = 16384;

/// Whether `pattern` stands in `s` at position `i`.
pub open spec fn bytes_at(s: Seq<u8>, pattern: Seq<u8>, i: int) -> bool {
    0 <= i && i + pattern.len() <= s.len() && s.subrange(i, i + pattern.len()) == pattern
}

/// Whether `pattern` stands in `s`.
pub open spec fn has_bytes(s: Seq<u8>, pattern: Seq<u8>) -> bool {
    exists|i: int| #[trigger] bytes_at(s, pattern, i)
}

/// Whether an empty line, which ends a head, is among the bytes; lines may end with or
/// without a carriage return.
pub open spec fn has_empty_line(s: Seq<u8>) -> bool {
    has_bytes(s, seq![13u8, 10, 13, 10]) || has_bytes(s, seq![10u8, 10])
}

/// How far the reading of a head has got.
#[derive(PartialEq, Eq, Structural, Clone, Copy, Debug)]
pub enum HeadProgress {
    /// There is more to read.
    More,
    /// Nothing more is to be read.
    Complete,
    /// Too much has come without an end.
    TooLong,
}

/// How far the reading has got when `chunk` has come after `before`; a chunk with
/// nothing in it is the end of the connection.
pub open spec fn head_progress(before: Seq<u8>, chunk: Seq<u8>) -> HeadProgress {
    if chunk.len() == 0 || has_empty_line(before + chunk) {
        HeadProgress::Complete
    } else if before.len() + chunk.len() > HEAD_LIMIT {
        HeadProgress::TooLong
    } else {
        HeadProgress::More
    }
}

/// Whether `pattern` stands in `s` at position `i`.
fn stands_at(s: &Vec<u8>, pattern: &[u8], i: usize) -> (r: bool)
    requires
        i <= s@.len(),
    ensures
        r == bytes_at(s@, pattern@, i as int),
{
    let n: usize = s.len();
    if pattern.len() > n - i {
        return false;
    }
    for k in 0..pattern.len()
        invariant
            n == s@.len(),
            i + pattern@.len() <= n,
            forall|j: int| 0 <= j < k ==> s@[i + j] == #[trigger] pattern@[j],
    {
        if s[i + k] != pattern[k] {
            assert(s@.subrange(i as int, i + pattern@.len())[k as int] != pattern@[k as int]);
            return false;
        }
    }
    assert(s@.subrange(i as int, i + pattern@.len()) =~= pattern@);
    true
}

/// Whether `pattern` stands in `s`.
fn contains_bytes(s: &Vec<u8>, pattern: &[u8]) -> (r: bool)
    ensures
        r == has_bytes(s@, pattern@),
{
    for i in 0..s.len()
        invariant
            forall|j: int| 0 <= j < i ==> !#[trigger] bytes_at(s@, pattern@, j),
    {
        if stands_at(s, pattern, i) {
            return true;
        }
    }
    stands_at(s, pattern, s.len())
}

/// Adds a chunk to what was read of a head, and says how far the reading has got.
pub fn read_http_headers(buffer: &mut Vec<u8>, chunk: &[u8]) -> (r: HeadProgress)
    ensures
        final(buffer)@ == old(buffer)@ + chunk@,
        r == head_progress(old(buffer)@, chunk@),
{
    put_bytes(buffer, chunk);
    if chunk.len() == 0 {
        return HeadProgress::Complete;
    }
    let full: [u8; 4] = [13, 10, 13, 10];
    let bare: [u8; 2] = [10, 10];
    assert(full@ =~= seq![13u8, 10, 13, 10]);
    assert(bare@ =~= seq![10u8, 10]);
    if contains_bytes(buffer, full.as_slice()) || contains_bytes(buffer, bare.as_slice()) {
        HeadProgress::Complete
    } else if buffer.len() > HEAD_LIMIT {
        HeadProgress::TooLong
    } else {
        HeadProgress::More
    }
}

/// What bytes are as text, with the replacement character in place of whatever is not UTF-8.
pub uninterp spec fn lossy_text(bytes: Seq<u8>) -> Seq<char>;

/// `String::from_utf8_lossy`: gives `lossy_text`, which is the text itself if the bytes
/// are UTF-8. How many replacement characters stand for what is not is left unsaid.
#[verifier::external_body]
fn text_from_utf8_lossy(bytes: &[u8]) -> (r: String)
    ensures
        r@ == lossy_text(bytes@),
        valid_utf8(bytes@) ==> r@ == decode_utf8(bytes@),
{
    String::from_utf8_lossy(bytes).into_owned()
}

/// The head as text.
pub fn head_text(bytes: &[u8]) -> (r: String)
    ensures
        r@ == lossy_text(bytes@),
        valid_utf8(bytes@) ==> r@ == decode_utf8(bytes@),
{
    text_from_utf8_lossy(bytes)
}

/// A head that goes on is within the limit, so that what is read of one never exceeds
/// the limit by more than the chunk that came last.
pub proof fn law_head_is_bounded(before: Seq<u8>, chunk: Seq<u8>)
    ensures
        head_progress(before, chunk) is More ==> (before + chunk).len() <= HEAD_LIMIT,
{
}

/// An empty line once read is still there when more has come.
proof fn lemma_has_bytes_extends(s: Seq<u8>, pattern: Seq<u8>, more: Seq<u8>)
    requires
        has_bytes(s, pattern),
    ensures
        has_bytes(s + more, pattern),
{
    let i = choose|i: int| #[trigger] bytes_at(s, pattern, i);
    assert((s + more).subrange(i, i + pattern.len()) =~= s.subrange(i, i + pattern.len()));
    assert(bytes_at(s + more, pattern, i));
}

/// Reading goes on exactly until the end of the head has come, however the bytes are
/// cut: while there is more to read, no part of what was read holds an empty line.
pub proof fn law_reading_goes_on_until_the_end(before: Seq<u8>, chunk: Seq<u8>, part: int)
    requires
        head_progress(before, chunk) is More,
        0 <= part <= (before + chunk).len(),
    ensures
        !has_empty_line((before + chunk).take(part)),
{
    let all = before + chunk;
    assert(all =~= all.take(part) + all.skip(part));
    if has_bytes(all.take(part), seq![13u8, 10, 13, 10]) {
        lemma_has_bytes_extends(all.take(part), seq![13u8, 10, 13, 10], all.skip(part));
    }
    if has_bytes(all.take(part), seq![10u8, 10]) {
        lemma_has_bytes_extends(all.take(part), seq![10u8, 10], all.skip(part));
    }
}

/// Reading a head ends when the connection does, or when two line ends have come one after
/// the other, two line feeds or each with its carriage return; it fails when more than
/// 16 KiB came without that, and goes on otherwise.
pub proof fn law_head_ends_at_an_empty_line(before: Seq<u8>, chunk: Seq<u8>)
    ensures
        ({
            let all = before + chunk;
            let ended = chunk.len() == 0 || (exists|i: int|
                0 <= i && i + 1 < all.len() && #[trigger] all[i] == 10 && all[i + 1] == 10) || (
            exists|i: int|
                0 <= i && i + 3 < all.len() && #[trigger] all[i] == 13 && all[i + 1] == 10 && all[i
                    + 2] == 13 && all[i + 3] == 10);
            &&& head_progress(before, chunk) is Complete <==> ended
            &&& head_progress(before, chunk) is TooLong <==> !ended && all.len() > 16 * 1024
            &&& head_progress(before, chunk) is More <==> !ended && all.len() <= 16 * 1024
        }),
{
    let all = before + chunk;
    let full = seq![13u8, 10, 13, 10];
    let bare = seq![10u8, 10];
    assert forall|i: int| 0 <= i && i + 1 < all.len() && #[trigger] all[i] == 10 && all[i + 1]
        == 10 implies has_bytes(all, bare) by {
        assert(all.subrange(i, i + 2) =~= bare);
        assert(bytes_at(all, bare, i));
    }
    assert forall|i: int|
        0 <= i && i + 3 < all.len() && #[trigger] all[i] == 13 && all[i + 1] == 10 && all[i + 2]
            == 13 && all[i + 3] == 10 implies has_bytes(all, full) by {
        assert(all.subrange(i, i + 4) =~= full);
        assert(bytes_at(all, full, i));
    }
    if has_bytes(all, bare) {
        let i = choose|i: int| #[trigger] bytes_at(all, bare, i);
        assert(all.subrange(i, i + 2)[0] == bare[0] && all.subrange(i, i + 2)[1] == bare[1]);
        assert(all[i] == 10 && all[i + 1] == 10);
    }
    if has_bytes(all, full) {
        let i = choose|i: int| #[trigger] bytes_at(all, full, i);
        let part = all.subrange(i, i + 4);
        assert(part[0] == 13 && part[1] == 10 && part[2] == 13 && part[3] == 10);
        assert(all[i] == 13 && all[i + 1] == 10 && all[i + 2] == 13 && all[i + 3] == 10);
    }
}

} // verus!
