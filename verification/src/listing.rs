//! The list of what is in the cache.

use vstd::prelude::*;

use crate::cache::Age;
use crate::paths::{
    components, entry_components, entry_id, is_nameable, law_entry_lies_in_cache,
    lemma_entry_components, normal_components, sanitized, sanitized_each, separated, string_views,
    PathStyle,
};
use crate::text::{chars_of, pieces, same_text};

verus! {

// ---------------------------------------------------------------------------
// Entries
// ---------------------------------------------------------------------------

/// An entry of the cache.
pub struct CacheEntry {
    /// Its path below the cache directory.
    pub id: String,
    pub host: String,
    pub kind: String,
    pub repository: String,
    pub reference: String,
    /// The size of its body, in bytes.
    pub size: u64,
    pub age_secs: u64,
    pub ttl_remaining_secs: u64,
    /// Whether its time runs out at a time that can be told.
    pub expires: bool,
}

/// What the place of an entry says about it.
#[verifier::ext_equal]
pub struct PlaceView {
    pub id: Seq<char>,
    pub host: Seq<char>,
    pub kind: Seq<char>,
    pub repository: Seq<char>,
    pub reference: Seq<char>,
}

/// What an entry is listed with.
#[verifier::ext_equal]
pub struct EntryView {
    pub place: PlaceView,
    pub size: u64,
    pub age_secs: u64,
    pub ttl_remaining_secs: u64,
    pub expires: bool,
}

impl View for CacheEntry {
    type V = EntryView;

    open spec fn view(&self) -> EntryView {
        EntryView {
            place: PlaceView {
                id: self.id@,
                host: self.host@,
                kind: self.kind@,
                repository: self.repository@,
                reference: self.reference@,
            },
            size: self.size,
            age_secs: self.age_secs,
            ttl_remaining_secs: self.ttl_remaining_secs,
            expires: self.expires,
        }
    }
}

/// What the entries of a list are listed with.
pub open spec fn entry_views(entries: Seq<CacheEntry>) -> Seq<EntryView> {
    entries.map_values(|entry: CacheEntry| entry@)
}

/// What a path below the cache directory says of the entry at it, if it has the four or
/// more components that one has: the registry, the kind, the repository and the reference.
pub open spec fn entry_at(style: PathStyle, relative: Seq<char>) -> Option<PlaceView> {
    let parts = normal_components(style, relative);
    if parts.len() < 4 {
        None
    } else {
        Some(
            PlaceView {
                id: relative,
                host: parts[0],
                kind: parts[1],
                repository: separated(parts.subrange(2, parts.len() - 1), '/'),
                reference: parts.last(),
            },
        )
    }
}

/// What was found of the body of an entry: its path below the cache directory, its size,
/// its age, and whether the time at which it expires can be told.
#[verifier::ext_equal]
pub struct BodyView {
    pub relative: Seq<char>,
    pub size: u64,
    pub age: Option<Age>,
    pub expires: bool,
}

/// What is listed of an entry with this body, if it is listed; an age that is unknown is
/// listed as none.
pub open spec fn listed_entry(style: PathStyle, body: BodyView, ttl: u64) -> Option<EntryView> {
    match entry_at(style, body.relative) {
        Some(place) => {
            let age_secs = match body.age {
                Some(age) => age.secs,
                None => 0,
            };
            Some(
                EntryView {
                    place,
                    size: body.size,
                    age_secs,
                    ttl_remaining_secs: if age_secs < ttl {
                        (ttl - age_secs) as u64
                    } else {
                        0
                    },
                    expires: body.expires,
                },
            )
        },
        None => None,
    }
}

/// The components from position `from` up to `to`, with slashes between them.
fn join_components(parts: &Vec<String>, from: usize, to: usize) -> (r: String)
    requires
        from < to <= parts@.len(),
    ensures
        r@ == separated(string_views(parts@).subrange(from as int, to as int), '/'),
    decreases to - from,
{
    let ghost all = string_views(parts@);
    let ghost range = all.subrange(from as int, to as int);
    if to - from == 1 {
        assert(range[0] == parts@[from as int]@);
        parts[from].clone()
    } else {
        assert(range.drop_first() =~= all.subrange(from + 1, to as int));
        let rest = join_components(parts, from + 1, to);
        let mut r = parts[from].clone();
        r.push('/');
        assert(r@ =~= range[0] + seq!['/']);
        r.concat(rest.as_str())
    }
}

/// Whether there is an entry to be listed at a path below the cache directory.
pub fn is_listed(style: PathStyle, relative: &str) -> (r: bool)
    ensures
        r == (entry_at(style, relative@) is Some),
{
    components(style, relative).len() >= 4
}

/// The entry at a path below the cache directory, with what is known of its body:
/// its size, its age, and whether the time at which it expires can be told.
pub fn cache_entry_from_path(
    style: PathStyle,
    relative: &str,
    size: u64,
    age: Option<Age>,
    expires: bool,
    ttl: u64,
) -> (r: Option<CacheEntry>)
    ensures
        match r {
            Some(entry) => listed_entry(
                style,
                (BodyView { relative: relative@, size, age, expires }),
                ttl,
            ) == Some(entry@),
            None => entry_at(style, relative@) is None,
        },
        r matches Some(entry) ==> {
            let parts = normal_components(style, relative@);
            &&& entry.id@ == relative@
            &&& entry.host@ == parts[0]
            &&& entry.kind@ == parts[1]
            &&& entry.repository@ == separated(parts.subrange(2, parts.len() - 1), '/')
            &&& entry.reference@ == parts.last()
            &&& entry.size == size
            &&& entry.expires == expires
        },
{
    let parts = components(style, relative);
    let n: usize = parts.len();
    let ghost all = normal_components(style, relative@);
    if n < 4 {
        return None;
    }
    let age_secs: u64 = match age {
        Some(age) => age.secs,
        None => 0,
    };
    let entry = CacheEntry {
        id: relative.to_string(),
        host: parts[0].clone(),
        kind: parts[1].clone(),
        repository: join_components(&parts, 2, n - 1),
        reference: parts[n - 1].clone(),
        size,
        age_secs,
        ttl_remaining_secs: ttl.saturating_sub(age_secs),
        expires,
    };
    assert(all[0] == parts@[0]@);
    assert(all[1] == parts@[1]@);
    assert(all.last() == parts@[n - 1]@);
    Some(entry)
}

/// A stored entry is listed under its registry, kind, repository and reference, each
/// as it is safe for the disk.
pub proof fn law_stored_entry_is_listed(
    style: PathStyle,
    host: Seq<char>,
    kind: Seq<char>,
    name: Seq<char>,
    reference: Seq<char>,
)
    requires
        is_nameable(host, kind, name, reference),
    ensures
        entry_at(style, entry_id(style, host, kind, name, reference)) == Some(
            PlaceView {
                id: entry_id(style, host, kind, name, reference),
                host: sanitized(host),
                kind,
                repository: separated(sanitized_each(pieces(name, '/')), '/'),
                reference: sanitized(reference),
            },
        ),
{
    let names = sanitized_each(pieces(name, '/'));
    let parts = entry_components(host, kind, name, reference);
    law_entry_lies_in_cache(style, seq![], host, kind, name, reference);
    lemma_entry_components(host, kind, name, reference);
    assert(parts.subrange(2, parts.len() - 1) =~= names);
}

// ---------------------------------------------------------------------------
// Order
// ---------------------------------------------------------------------------

/// Whether a text comes before another: at the first character in which they differ,
/// by code point, or because it is a beginning of the other.
pub open spec fn precedes(a: Seq<char>, b: Seq<char>) -> bool
    decreases a.len(),
{
    if b.len() == 0 {
        false
    } else if a.len() == 0 {
        true
    } else if a[0] != b[0] {
        a[0] < b[0]
    } else {
        precedes(a.drop_first(), b.drop_first())
    }
}

/// What entries are ordered by.
pub struct EntryKey {
    pub host: Seq<char>,
    pub kind: Seq<char>,
    pub repository: Seq<char>,
    pub reference: Seq<char>,
}

/// What an entry is ordered by.
pub open spec fn key_of(entry: CacheEntry) -> EntryKey {
    EntryKey {
        host: entry.host@,
        kind: entry.kind@,
        repository: entry.repository@,
        reference: entry.reference@,
    }
}

/// Whether a key comes before another: by registry, then kind, then repository, then
/// reference.
pub open spec fn key_before(a: EntryKey, b: EntryKey) -> bool {
    if a.host != b.host {
        precedes(a.host, b.host)
    } else if a.kind != b.kind {
        precedes(a.kind, b.kind)
    } else if a.repository != b.repository {
        precedes(a.repository, b.repository)
    } else {
        precedes(a.reference, b.reference)
    }
}

/// Whether no entry comes after one that it should come before.
pub open spec fn is_ordered(entries: Seq<CacheEntry>) -> bool {
    forall|i: int, j: int|
        0 <= i < j < entries.len() ==> !key_before(
            #[trigger] key_of(entries[j]),
            #[trigger] key_of(entries[i]),
        )
}

/// The property of having a key.
pub open spec fn has_key(key: EntryKey) -> spec_fn(CacheEntry) -> bool {
    |entry: CacheEntry| key_of(entry) == key
}

/// Whether two lists hold, for each key, the same entries in the same order.
pub open spec fn same_by_key(a: Seq<CacheEntry>, b: Seq<CacheEntry>) -> bool {
    forall|key: EntryKey| #[trigger] a.filter(has_key(key)) == b.filter(has_key(key))
}

/// No text comes before itself, and of two that differ exactly one comes before the other.
pub proof fn lemma_precedes_total(a: Seq<char>, b: Seq<char>)
    ensures
        a == b ==> !precedes(a, b),
        a != b ==> precedes(a, b) != precedes(b, a),
    decreases a.len(),
{
    if a.len() > 0 && b.len() > 0 {
        if a[0] == b[0] {
            lemma_precedes_total(a.drop_first(), b.drop_first());
            if a.drop_first() == b.drop_first() {
                assert(a =~= seq![a[0]] + a.drop_first());
                assert(b =~= seq![b[0]] + b.drop_first());
            }
        }
    } else if a.len() == 0 && b.len() == 0 {
        assert(a =~= b);
    }
}

/// What comes before a text comes before all that come after it.
pub proof fn lemma_precedes_transitive(a: Seq<char>, b: Seq<char>, c: Seq<char>)
    requires
        precedes(a, b),
        precedes(b, c),
    ensures
        precedes(a, c),
    decreases a.len(),
{
    if a.len() > 0 && a[0] == b[0] && b[0] == c[0] {
        lemma_precedes_transitive(a.drop_first(), b.drop_first(), c.drop_first());
    }
}

/// Of two keys that differ exactly one comes before the other.
proof fn lemma_key_before_total(a: EntryKey, b: EntryKey)
    ensures
        a == b ==> !key_before(a, b),
        a != b ==> key_before(a, b) != key_before(b, a),
{
    lemma_precedes_total(a.host, b.host);
    lemma_precedes_total(a.kind, b.kind);
    lemma_precedes_total(a.repository, b.repository);
    lemma_precedes_total(a.reference, b.reference);
}

/// What comes before a key comes before all that come after it.
proof fn lemma_key_before_transitive(a: EntryKey, b: EntryKey, c: EntryKey)
    requires
        key_before(a, b),
        key_before(b, c),
    ensures
        key_before(a, c),
{
    lemma_precedes_total(a.host, b.host);
    lemma_precedes_total(b.host, c.host);
    lemma_precedes_total(a.host, c.host);
    lemma_precedes_total(a.kind, c.kind);
    lemma_precedes_total(a.repository, c.repository);
    if a.host != b.host && b.host != c.host {
        lemma_precedes_transitive(a.host, b.host, c.host);
    } else if a.host == b.host && b.host == c.host {
        if a.kind != b.kind && b.kind != c.kind {
            lemma_precedes_transitive(a.kind, b.kind, c.kind);
        } else if a.kind == b.kind && b.kind == c.kind {
            if a.repository != b.repository && b.repository != c.repository {
                lemma_precedes_transitive(a.repository, b.repository, c.repository);
            } else if a.repository == b.repository && b.repository == c.repository {
                lemma_precedes_transitive(a.reference, b.reference, c.reference);
            }
        }
    }
}

/// A key that does not come after one that does not come after a third does not come
/// after the third.
proof fn lemma_not_after_transitive(a: EntryKey, b: EntryKey, c: EntryKey)
    requires
        !key_before(b, a),
        !key_before(c, b),
    ensures
        !key_before(c, a),
{
    lemma_key_before_total(a, b);
    lemma_key_before_total(b, c);
    lemma_key_before_total(a, c);
    if key_before(c, a) && a != b && b != c {
        lemma_key_before_transitive(a, b, c);
    }
}

/// Whether a text comes before another.
fn comes_before(a: &str, b: &str) -> (r: bool)
    ensures
        r == precedes(a@, b@),
{
    let x = chars_of(a);
    let y = chars_of(b);
    let n: usize = x.len();
    let m: usize = y.len();
    let mut i: usize = 0;
    assert(x@.skip(0) =~= x@);
    assert(y@.skip(0) =~= y@);
    while i < n && i < m && x[i] == y[i]
        invariant
            n == x@.len(),
            m == y@.len(),
            i <= n,
            i <= m,
            precedes(x@, y@) == precedes(x@.skip(i as int), y@.skip(i as int)),
        decreases n - i,
    {
        assert(x@.skip(i as int).drop_first() =~= x@.skip(i + 1));
        assert(y@.skip(i as int).drop_first() =~= y@.skip(i + 1));
        i += 1;
    }
    if i >= m {
        false
    } else if i >= n {
        true
    } else {
        x[i] < y[i]
    }
}

/// Whether an entry comes before another.
fn entry_before(a: &CacheEntry, b: &CacheEntry) -> (r: bool)
    ensures
        r == key_before(key_of(*a), key_of(*b)),
{
    if !same_text(a.host.as_str(), b.host.as_str()) {
        comes_before(a.host.as_str(), b.host.as_str())
    } else if !same_text(a.kind.as_str(), b.kind.as_str()) {
        comes_before(a.kind.as_str(), b.kind.as_str())
    } else if !same_text(a.repository.as_str(), b.repository.as_str()) {
        comes_before(a.repository.as_str(), b.repository.as_str())
    } else {
        comes_before(a.reference.as_str(), b.reference.as_str())
    }
}

/// Whether no entry of `b` comes before one of `a`.
spec fn none_before(a: Seq<CacheEntry>, b: Seq<CacheEntry>) -> bool {
    forall|i: int, j: int|
        0 <= i < a.len() && 0 <= j < b.len() ==> !key_before(
            #[trigger] key_of(b[j]),
            #[trigger] key_of(a[i]),
        )
}

/// Whether what is left of two lists and what was merged so far hold, for each key,
/// the entries of the whole in their order.
spec fn splits(
    whole: Seq<CacheEntry>,
    a: Seq<CacheEntry>,
    b: Seq<CacheEntry>,
    merged: Seq<CacheEntry>,
) -> bool {
    forall|key: EntryKey| #[trigger]
        whole.filter(has_key(key)) == a.filter(has_key(key)) + b.filter(has_key(key))
            + merged.filter(has_key(key))
}

/// An entry of a one-entry list is found by its key alone.
proof fn lemma_filter_one(x: CacheEntry, key: EntryKey)
    ensures
        seq![x].filter(has_key(key)) == (if key_of(x) == key {
            seq![x]
        } else {
            seq![]
        }),
{
    reveal_with_fuel(Seq::filter, 2);
    assert(seq![x].drop_last() =~= seq![]);
    assert(Seq::<CacheEntry>::empty().push(x) =~= seq![x]);
}

/// Moving the last entry of the second list to the front of the merged ones.
proof fn lemma_take_second(
    whole: Seq<CacheEntry>,
    a: Seq<CacheEntry>,
    b: Seq<CacheEntry>,
    merged: Seq<CacheEntry>,
)
    requires
        b.len() > 0,
        splits(whole, a, b, merged),
    ensures
        splits(whole, a, b.drop_last(), seq![b.last()] + merged),
{
    let x = b.last();
    let rest = b.drop_last();
    assert forall|key: EntryKey| #[trigger]
        whole.filter(has_key(key)) == a.filter(has_key(key)) + rest.filter(has_key(key)) + (seq![x]
            + merged).filter(has_key(key)) by {
        let p = has_key(key);
        lemma_filter_one(x, key);
        Seq::filter_distributes_over_add(seq![x], merged, p);
        assert(b =~= rest + seq![x]);
        Seq::filter_distributes_over_add(rest, seq![x], p);
        assert(a.filter(p) + b.filter(p) + merged.filter(p) =~= a.filter(p) + rest.filter(p) + (
        seq![x].filter(p) + merged.filter(p)));
    }
}

/// Moving the last entry of the first list, which comes after all of the second, to
/// the front of the merged ones.
proof fn lemma_take_first(
    whole: Seq<CacheEntry>,
    a: Seq<CacheEntry>,
    b: Seq<CacheEntry>,
    merged: Seq<CacheEntry>,
)
    requires
        a.len() > 0,
        splits(whole, a, b, merged),
        forall|j: int| 0 <= j < b.len() ==> key_of(#[trigger] b[j]) != key_of(a.last()),
    ensures
        splits(whole, a.drop_last(), b, seq![a.last()] + merged),
{
    let x = a.last();
    let rest = a.drop_last();
    assert forall|key: EntryKey| #[trigger]
        whole.filter(has_key(key)) == rest.filter(has_key(key)) + b.filter(has_key(key)) + (seq![x]
            + merged).filter(has_key(key)) by {
        let p = has_key(key);
        lemma_filter_one(x, key);
        Seq::filter_distributes_over_add(seq![x], merged, p);
        assert(a =~= rest + seq![x]);
        Seq::filter_distributes_over_add(rest, seq![x], p);
        if key_of(x) == key {
            b.lemma_all_neg_filter_empty(p);
            assert(b.filter(p) =~= seq![]);
        }
        assert(a.filter(p) + b.filter(p) + merged.filter(p) =~= rest.filter(p) + b.filter(p) + (
        seq![x].filter(p) + merged.filter(p)));
    }
}

/// One ordered list out of two, entries with the same key in the order of the lists.
fn merge(first: Vec<CacheEntry>, second: Vec<CacheEntry>) -> (r: Vec<CacheEntry>)
    requires
        is_ordered(first@),
        is_ordered(second@),
    ensures
        is_ordered(r@),
        same_by_key(r@, first@ + second@),
{
    let ghost whole = first@ + second@;
    let mut a = first;
    let mut b = second;
    let mut out: Vec<CacheEntry> = Vec::new();
    let ghost mut merged: Seq<CacheEntry> = seq![];
    proof {
        assert forall|key: EntryKey| #[trigger]
            whole.filter(has_key(key)) == a@.filter(has_key(key)) + b@.filter(has_key(key))
                + merged.filter(has_key(key)) by {
            Seq::filter_distributes_over_add(a@, b@, has_key(key));
            reveal(Seq::filter);
            assert(a@.filter(has_key(key)) + b@.filter(has_key(key)) + seq![] =~= a@.filter(
                has_key(key),
            ) + b@.filter(has_key(key)));
        }
    }
    while a.len() > 0 || b.len() > 0
        invariant
            out@ == merged.reverse(),
            is_ordered(a@),
            is_ordered(b@),
            is_ordered(merged),
            none_before(a@, merged),
            none_before(b@, merged),
            splits(whole, a@, b@, merged),
        decreases a@.len() + b@.len(),
    {
        let ghost old_a = a@;
        let ghost old_b = b@;
        let ghost old_merged = merged;
        let take_first = if a.len() == 0 {
            false
        } else if b.len() == 0 {
            true
        } else {
            entry_before(&b[b.len() - 1], &a[a.len() - 1])
        };
        let taken = if take_first {
            a.pop()
        } else {
            b.pop()
        };
        if let Some(x) = taken {
            proof {
                merged = seq![x] + merged;
                if take_first {
                    assert forall|j: int| 0 <= j < old_b.len() implies key_before(
                        key_of(#[trigger] old_b[j]),
                        key_of(x),
                    ) by {
                        lemma_key_before_total(key_of(old_b[j]), key_of(old_b.last()));
                        if j < old_b.len() - 1 {
                            assert(!key_before(key_of(old_b[old_b.len() - 1]), key_of(old_b[j])));
                        }
                        if key_of(old_b[j]) != key_of(old_b.last()) {
                            lemma_key_before_transitive(
                                key_of(old_b[j]),
                                key_of(old_b.last()),
                                key_of(x),
                            );
                        }
                    }
                    assert forall|j: int| 0 <= j < old_b.len() implies key_of(#[trigger] old_b[j])
                        != key_of(x) && !key_before(key_of(x), key_of(old_b[j])) by {
                        lemma_key_before_total(key_of(old_b[j]), key_of(x));
                    }
                    lemma_take_first(whole, old_a, old_b, old_merged);
                } else {
                    assert forall|i: int| 0 <= i < old_a.len() implies !key_before(
                        key_of(x),
                        key_of(#[trigger] old_a[i]),
                    ) by {
                        if i < old_a.len() - 1 {
                            assert(!key_before(key_of(old_a[old_a.len() - 1]), key_of(old_a[i])));
                        } else {
                            lemma_key_before_total(key_of(old_a[i]), key_of(old_a[i]));
                        }
                        lemma_not_after_transitive(
                            key_of(old_a[i]),
                            key_of(old_a.last()),
                            key_of(x),
                        );
                    }
                    lemma_take_second(whole, old_a, old_b, old_merged);
                }
            }
            out.push(x);
            assert(out@ =~= merged.reverse());
            assert(is_ordered(merged));
            assert(none_before(a@, merged));
            assert(none_before(b@, merged));
        }
    }
    let mut r: Vec<CacheEntry> = Vec::new();
    let ghost n = merged.len();
    while out.len() > 0
        invariant
            n == merged.len(),
            out@.len() + r@.len() == n,
            out@ == merged.reverse().take(out@.len() as int),
            r@ == merged.take(r@.len() as int),
        decreases out@.len(),
    {
        if let Some(x) = out.pop() {
            r.push(x);
            assert(r@ =~= merged.take(r@.len() as int));
        }
    }
    proof {
        assert(r@ =~= merged);
        assert forall|key: EntryKey| #[trigger]
            r@.filter(has_key(key)) == whole.filter(has_key(key)) by {
            reveal(Seq::filter);
            assert(a@.filter(has_key(key)) + b@.filter(has_key(key)) + merged.filter(has_key(key))
                =~= merged.filter(has_key(key)));
        }
    }
    r
}

/// The entries in order: by registry, then kind, then repository, then reference.
/// Entries that agree in all four keep their order.
pub fn sort_entries(entries: Vec<CacheEntry>) -> (r: Vec<CacheEntry>)
    ensures
        is_ordered(r@),
        same_by_key(r@, entries@),
        r@.to_multiset() == entries@.to_multiset(),
    decreases entries@.len(),
{
    let n: usize = entries.len();
    if n < 2 {
        return entries;
    }
    let ghost whole = entries@;
    let mut front = entries;
    let back = front.split_off(n / 2);
    assert(whole =~= front@ + back@);
    let ghost f = front@;
    let ghost b = back@;
    let first = sort_entries(front);
    let second = sort_entries(back);
    let r = merge(first, second);
    proof {
        assert forall|key: EntryKey| #[trigger]
            r@.filter(has_key(key)) == whole.filter(has_key(key)) by {
            let p = has_key(key);
            assert(r@.filter(p) == (first@ + second@).filter(p));
            Seq::filter_distributes_over_add(first@, second@, p);
            Seq::filter_distributes_over_add(f, b, p);
            assert(first@.filter(p) == f.filter(p));
            assert(second@.filter(p) == b.filter(p));
        }
        law_ordering_keeps_every_entry(r@, whole);
    }
    r
}

/// Keeping or dropping the first entry of a list, and what that leaves of the others.
proof fn lemma_filter_first(entries: Seq<CacheEntry>, key: EntryKey)
    requires
        entries.len() > 0,
    ensures
        entries.filter(has_key(key)) == (if key_of(entries[0]) == key {
            seq![entries[0]] + entries.drop_first().filter(has_key(key))
        } else {
            entries.drop_first().filter(has_key(key))
        }),
{
    let p = has_key(key);
    let first = seq![entries[0]];
    assert(entries =~= first + entries.drop_first());
    Seq::filter_distributes_over_add(first, entries.drop_first(), p);
    reveal_with_fuel(Seq::filter, 2);
    assert(first.drop_last() =~= seq![]);
    if p(entries[0]) {
        assert(first.filter(p) =~= first);
    } else {
        assert(first.filter(p) =~= seq![]);
        assert(Seq::<CacheEntry>::empty() + entries.drop_first().filter(p)
            =~= entries.drop_first().filter(p));
    }
}

/// A list that holds an entry with a key keeps one when only those with it are kept.
proof fn lemma_filter_keeps(entries: Seq<CacheEntry>, key: EntryKey)
    ensures
        entries.filter(has_key(key)).len() == 0 <==> forall|i: int|
            0 <= i < entries.len() ==> key_of(#[trigger] entries[i]) != key,
    decreases entries.len(),
{
    if entries.len() > 0 {
        let rest = entries.drop_first();
        lemma_filter_first(entries, key);
        lemma_filter_keeps(rest, key);
        if key_of(entries[0]) != key {
            assert forall|i: int|
                (forall|j: int| 0 <= j < rest.len() ==> key_of(#[trigger] rest[j]) != key) && 0 <= i
                    < entries.len() implies key_of(#[trigger] entries[i]) != key by {
                if i > 0 {
                    assert(entries[i] == rest[i - 1]);
                }
            }
            assert forall|j: int|
                (forall|i: int| 0 <= i < entries.len() ==> key_of(#[trigger] entries[i]) != key) && 0
                    <= j < rest.len() implies key_of(#[trigger] rest[j]) != key by {
                assert(rest[j] == entries[j + 1]);
            }
        }
    } else {
        assert(entries.filter(has_key(key)) =~= seq![]) by {
            reveal(Seq::filter);
        }
    }
}

/// There is one order only: two ordered lists that hold, for each key, the same entries
/// in the same order are the same list.
pub proof fn law_order_is_unique(a: Seq<CacheEntry>, b: Seq<CacheEntry>)
    requires
        is_ordered(a),
        is_ordered(b),
        same_by_key(a, b),
    ensures
        a == b,
    decreases a.len(),
{
    if a.len() == 0 {
        if b.len() > 0 {
            let key = key_of(b[0]);
            lemma_filter_keeps(a, key);
            lemma_filter_keeps(b, key);
            assert(a.filter(has_key(key)) == b.filter(has_key(key)));
        }
        assert(a =~= b);
    } else {
        let key = key_of(a[0]);
        assert(a.filter(has_key(key)) == b.filter(has_key(key)));
        lemma_filter_keeps(a, key);
        lemma_filter_keeps(b, key);
        let i = choose|i: int| 0 <= i < b.len() && key_of(#[trigger] b[i]) == key;
        let other = key_of(b[0]);
        assert(a.filter(has_key(other)) == b.filter(has_key(other)));
        lemma_filter_keeps(a, other);
        lemma_filter_keeps(b, other);
        let j = choose|j: int| 0 <= j < a.len() && key_of(#[trigger] a[j]) == other;
        lemma_key_before_total(key, other);
        if key != other {
            assert(!key_before(key_of(b[i]), key_of(b[0])));
            assert(!key_before(key_of(a[j]), key_of(a[0])));
        }
        lemma_filter_first(a, key);
        lemma_filter_first(b, key);
        assert(a.filter(has_key(key))[0] == a[0]);
        assert(b.filter(has_key(key))[0] == b[0]);
        let ra = a.drop_first();
        let rb = b.drop_first();
        assert forall|k: EntryKey| #[trigger] ra.filter(has_key(k)) == rb.filter(has_key(k)) by {
            assert(a.filter(has_key(k)) == b.filter(has_key(k)));
            lemma_filter_first(a, k);
            lemma_filter_first(b, k);
            if k == key {
                assert(ra.filter(has_key(k)) =~= a.filter(has_key(k)).drop_first());
                assert(rb.filter(has_key(k)) =~= b.filter(has_key(k)).drop_first());
            }
        }
        assert(is_ordered(ra)) by {
            assert forall|x: int, y: int| 0 <= x < y < ra.len() implies !key_before(
                #[trigger] key_of(ra[y]),
                #[trigger] key_of(ra[x]),
            ) by {
                assert(ra[y] == a[y + 1] && ra[x] == a[x + 1]);
                assert(!key_before(key_of(a[y + 1]), key_of(a[x + 1])));
            }
        }
        assert(is_ordered(rb)) by {
            assert forall|x: int, y: int| 0 <= x < y < rb.len() implies !key_before(
                #[trigger] key_of(rb[y]),
                #[trigger] key_of(rb[x]),
            ) by {
                assert(rb[y] == b[y + 1] && rb[x] == b[x + 1]);
                assert(!key_before(key_of(b[y + 1]), key_of(b[x + 1])));
            }
        }
        law_order_is_unique(ra, rb);
        assert(a =~= seq![a[0]] + ra);
        assert(b =~= seq![b[0]] + rb);
    }
}

/// Putting entries in order neither loses nor adds any.
pub proof fn law_ordering_keeps_every_entry(a: Seq<CacheEntry>, b: Seq<CacheEntry>)
    requires
        same_by_key(a, b),
    ensures
        a.to_multiset() == b.to_multiset(),
{
    assert forall|entry: CacheEntry| a.to_multiset().count(entry) == b.to_multiset().count(
        entry,
    ) by {
        let key = key_of(entry);
        assert(a.filter(has_key(key)) == b.filter(has_key(key)));
        lemma_count_by_key(a, entry);
        lemma_count_by_key(b, entry);
    }
    assert(a.to_multiset() =~= b.to_multiset());
}

/// An entry occurs as often among all entries as among those with its key.
proof fn lemma_count_by_key(entries: Seq<CacheEntry>, entry: CacheEntry)
    ensures
        entries.to_multiset().count(entry) == entries.filter(
            has_key(key_of(entry)),
        ).to_multiset().count(entry),
    decreases entries.len(),
{
    broadcast use vstd::seq_lib::group_to_multiset_ensures;

    let key = key_of(entry);
    if entries.len() > 0 {
        let rest = entries.drop_first();
        lemma_filter_first(entries, key);
        lemma_count_by_key(rest, entry);
        lemma_count_first(entries, entry);
        if key_of(entries[0]) == key {
            let kept = entries.filter(has_key(key));
            lemma_count_first(kept, entry);
            assert(kept.drop_first() =~= rest.filter(has_key(key)));
        }
    } else {
        reveal(Seq::filter);
        assert(entries.filter(has_key(key)) =~= entries);
    }
}

/// How often an entry occurs in a list, by the first of the list and the rest.
proof fn lemma_count_first(entries: Seq<CacheEntry>, entry: CacheEntry)
    requires
        entries.len() > 0,
    ensures
        entries.to_multiset().count(entry) == entries.drop_first().to_multiset().count(entry) + (
        if entries[0] == entry {
            1nat
        } else {
            0
        }),
{
    broadcast use vstd::seq_lib::group_to_multiset_ensures;

    assert(entries =~= seq![entries[0]] + entries.drop_first());
    vstd::seq_lib::lemma_multiset_commutative(seq![entries[0]], entries.drop_first());
    assert(seq![entries[0]] =~= Seq::<CacheEntry>::empty().push(entries[0]));
}

/// What is listed of entries depends on which entries there are, not on their order.
pub proof fn lemma_views_of_same_entries(a: Seq<CacheEntry>, b: Seq<CacheEntry>)
    requires
        a.to_multiset() == b.to_multiset(),
    ensures
        entry_views(a).to_multiset() == entry_views(b).to_multiset(),
    decreases a.len(),
{
    broadcast use vstd::seq_lib::group_to_multiset_ensures;

    assert(a.to_multiset().len() == a.len());
    assert(b.to_multiset().len() == b.len());
    if a.len() == 0 {
        assert(entry_views(a) =~= entry_views(b));
    } else {
        let first = a[0];
        assert(a.contains(first));
        assert(a.to_multiset().count(first) > 0);
        assert(b.contains(first));
        let j = b.index_of(first);
        let ra = a.remove(0);
        let rb = b.remove(j);
        lemma_views_of_same_entries(ra, rb);
        assert(entry_views(a).remove(0) =~= entry_views(ra));
        assert(entry_views(b).remove(j) =~= entry_views(rb));
        let x = entry_views(a).to_multiset();
        let y = entry_views(b).to_multiset();
        assert(entry_views(a)[0] == first@ && entry_views(b)[j] == first@);
        assert(x.remove(first@) == y.remove(first@));
        assert(entry_views(a).contains(first@));
        assert(entry_views(b).contains(first@));
        assert(x.count(first@) > 0 && y.count(first@) > 0);
        assert(x =~= x.remove(first@).insert(first@));
        assert(y =~= y.remove(first@).insert(first@));
    }
}

// ---------------------------------------------------------------------------
// What is listed, and in what order
// ---------------------------------------------------------------------------

/// An entry is listed if at least four components of its path name something: under the
/// first as its registry, the second as its kind, the last as its reference and all between
/// them, with slashes, as its repository; its id is the whole path.
pub proof fn law_place_by_components(style: PathStyle, relative: Seq<char>)
    ensures
        ({
            let parts = normal_components(style, relative);
            let n = parts.len();
            match entry_at(style, relative) {
                Some(place) => {
                    &&& n >= 4
                    &&& place.id == relative
                    &&& place.host == parts[0]
                    &&& place.kind == parts[1]
                    &&& place.repository == separated(parts.subrange(2, n - 1), '/')
                    &&& place.reference == parts[n - 1]
                },
                None => n < 4,
            }
        }),
{
}

/// A listed entry shows the size of its body, its age in whole seconds, or none if that is
/// unknown, and how many seconds it has left, its age and these making up `ttl` together
/// until it has outlived that.
pub proof fn law_listed_times_add_up(style: PathStyle, body: BodyView, ttl: u64)
    ensures
        listed_entry(style, body, ttl) is Some <==> entry_at(style, body.relative) is Some,
        listed_entry(style, body, ttl) matches Some(entry) ==> {
            &&& entry_at(style, body.relative) == Some(entry.place)
            &&& entry.size == body.size
            &&& entry.expires == body.expires
            &&& body.age matches Some(age) ==> entry.age_secs == age.secs
            &&& body.age is None ==> entry.age_secs == 0
            &&& entry.age_secs <= ttl ==> entry.age_secs + entry.ttl_remaining_secs == ttl
            &&& entry.age_secs > ttl ==> entry.ttl_remaining_secs == 0
        },
{
}

/// One text comes before another exactly if they are alike up to some place, and there the
/// first ends and the other does not, or has a character with a smaller code point.
pub proof fn law_texts_are_ordered_by_first_difference(a: Seq<char>, b: Seq<char>)
    ensures
        precedes(a, b) <==> exists|k: int|
            {
                &&& 0 <= k <= a.len()
                &&& k < b.len()
                &&& #[trigger] a.take(k) == b.take(k)
                &&& k == a.len() || a[k] < b[k]
            },
    decreases a.len(),
{
    if b.len() > 0 && a.len() > 0 && a[0] == b[0] {
        let x = a.drop_first();
        let y = b.drop_first();
        law_texts_are_ordered_by_first_difference(x, y);
        if precedes(x, y) {
            let k = choose|k: int|
                {
                    &&& 0 <= k <= x.len()
                    &&& k < y.len()
                    &&& #[trigger] x.take(k) == y.take(k)
                    &&& k == x.len() || x[k] < y[k]
                };
            assert(a.take(k + 1) =~= seq![a[0]] + x.take(k));
            assert(b.take(k + 1) =~= seq![b[0]] + y.take(k));
            assert(a.take(k + 1) == b.take(k + 1));
        }
        assert forall|k: int|
            0 <= k <= a.len() && k < b.len() && #[trigger] a.take(k) == b.take(k) && (k == a.len()
                || a[k] < b[k]) implies precedes(x, y) by {
            if k > 0 {
                assert(x.take(k - 1) =~= a.take(k).drop_first());
                assert(y.take(k - 1) =~= b.take(k).drop_first());
                assert(x.take(k - 1) == y.take(k - 1));
            }
        }
    } else if b.len() > 0 && a.len() > 0 {
        assert(a.take(0) =~= b.take(0));
        assert forall|k: int|
            0 <= k <= a.len() && k < b.len() && #[trigger] a.take(k) == b.take(k) implies k == 0 by {
            if k > 0 {
                assert(a.take(k)[0] == a[0] && b.take(k)[0] == b[0]);
            }
        }
    } else if b.len() > 0 {
        assert(a.take(0) =~= b.take(0));
    }
}

/// Entries are ordered by registry, those of one registry by kind, those of one kind by
/// repository, and those of one repository by reference; a list is in order if none of its
/// entries comes before one that stands ahead of it.
pub proof fn law_entries_are_ordered_field_by_field(
    a: CacheEntry,
    b: CacheEntry,
    entries: Seq<CacheEntry>,
)
    ensures
        key_before(key_of(a), key_of(b)) <==> {
            ||| precedes(a.host@, b.host@)
            ||| a.host@ == b.host@ && precedes(a.kind@, b.kind@)
            ||| a.host@ == b.host@ && a.kind@ == b.kind@ && precedes(a.repository@, b.repository@)
            ||| a.host@ == b.host@ && a.kind@ == b.kind@ && a.repository@ == b.repository@
                && precedes(a.reference@, b.reference@)
        },
        is_ordered(entries) <==> forall|i: int, j: int|
            0 <= i < j < entries.len() ==> !key_before(
                #[trigger] key_of(entries[j]),
                #[trigger] key_of(entries[i]),
            ),
{
    lemma_precedes_total(a.host@, b.host@);
    lemma_precedes_total(a.kind@, b.kind@);
    lemma_precedes_total(a.repository@, b.repository@);
}

/// What is seen of entries is all that they are listed with, each at its place.
pub proof fn law_entries_are_seen_whole(entries: Seq<CacheEntry>, i: int)
    requires
        0 <= i < entries.len(),
    ensures
        ({
            let entry = entries[i];
            let seen = entry_views(entries)[i];
            &&& entry_views(entries).len() == entries.len()
            &&& seen.place.id == entry.id@
            &&& seen.place.host == entry.host@
            &&& seen.place.kind == entry.kind@
            &&& seen.place.repository == entry.repository@
            &&& seen.place.reference == entry.reference@
            &&& seen.size == entry.size
            &&& seen.age_secs == entry.age_secs
            &&& seen.ttl_remaining_secs == entry.ttl_remaining_secs
            &&& seen.expires == entry.expires
        }),
{
}

} // verus!
