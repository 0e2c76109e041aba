//! Text as sequences of characters: searching, splitting and trimming.

use vstd::prelude::*;

verus! {

/// Appending one character to a `String` (`String::push`).
pub assume_specification[ String::push ](s: &mut String, c: char)
    ensures
        final(s)@ == old(s)@.push(c),
;

// ---------------------------------------------------------------------------
// What the operations mean
// ---------------------------------------------------------------------------

/// The position of the first `c` in `s`, or the length of `s` if there is none.
pub open spec fn find_char(s: Seq<char>, c: char) -> int
    decreases s.len(),
{
    if s.len() == 0 || s[0] == c {
        0
    } else {
        1 + find_char(s.drop_first(), c)
    }
}

/// What stands before and after the first `c`, if there is one.
pub open spec fn split_once_char(s: Seq<char>, c: char) -> Option<(Seq<char>, Seq<char>)> {
    let i = find_char(s, c);
    if s.contains(c) {
        Some((s.take(i), s.skip(i + 1)))
    } else {
        None
    }
}

/// What stands before the first `c`; all of `s` if there is none.
pub open spec fn before_char(s: Seq<char>, c: char) -> Seq<char> {
    s.take(find_char(s, c))
}

/// The pieces of `s` between its occurrences of `c`; there is always at least one.
pub open spec fn pieces(s: Seq<char>, c: char) -> Seq<Seq<char>>
    decreases s.len(),
    via pieces_shrink
{
    match split_once_char(s, c) {
        Some((before, after)) => seq![before] + pieces(after, c),
        None => seq![s],
    }
}

#[via_fn]
proof fn pieces_shrink(s: Seq<char>, c: char) {
    if s.contains(c) {
        lemma_find_char(s, c);
    }
}

/// Whether `p` stands in `s` at position `i`.
pub open spec fn occurs_at(s: Seq<char>, p: Seq<char>, i: int) -> bool {
    0 <= i && i + p.len() <= s.len() && s.subrange(i, i + p.len()) == p
}

/// Whether `p` occurs in `s`.
pub open spec fn has_text(s: Seq<char>, p: Seq<char>) -> bool {
    exists|i: int| occurs_at(s, p, i)
}

/// The first position from `from` on at which `p` stands in `s`.
pub open spec fn find_text_from(s: Seq<char>, p: Seq<char>, from: int) -> Option<int>
    decreases s.len() - from + 1,
{
    if from < 0 || s.len() < from {
        None
    } else if occurs_at(s, p, from) {
        Some(from)
    } else {
        find_text_from(s, p, from + 1)
    }
}

/// What stands before and after the first occurrence of `p`, if there is one.
pub open spec fn split_once_text(s: Seq<char>, p: Seq<char>) -> Option<(Seq<char>, Seq<char>)> {
    match find_text_from(s, p, 0) {
        Some(i) => Some((s.take(i), s.skip(i + p.len()))),
        None => None,
    }
}

/// What follows the prefix `p`, if `s` begins with it.
pub open spec fn strip_prefix(s: Seq<char>, p: Seq<char>) -> Option<Seq<char>> {
    if p.is_prefix_of(s) {
        Some(s.skip(p.len() as int))
    } else {
        None
    }
}

/// The characters with the Unicode property White_Space.
pub open spec fn is_whitespace(c: char) -> bool {
    ||| '\u{9}' <= c <= '\u{d}'
    ||| c == '\u{20}'
    ||| c == '\u{85}'
    ||| c == '\u{a0}'
    ||| c == '\u{1680}'
    ||| '\u{2000}' <= c <= '\u{200a}'
    ||| '\u{2028}' <= c <= '\u{2029}'
    ||| c == '\u{202f}'
    ||| c == '\u{205f}'
    ||| c == '\u{3000}'
}

/// The property of being white space.
pub open spec fn whitespace() -> spec_fn(char) -> bool {
    |c: char| is_whitespace(c)
}

/// The property of being `d`.
pub open spec fn only(d: char) -> spec_fn(char) -> bool {
    |c: char| c == d
}

/// `s` without the characters of `drop` that it begins with.
pub open spec fn trim_start_of(s: Seq<char>, drop: spec_fn(char) -> bool) -> Seq<char>
    decreases s.len(),
{
    if s.len() > 0 && drop(s[0]) {
        trim_start_of(s.drop_first(), drop)
    } else {
        s
    }
}

/// `s` without the characters of `drop` that it ends with.
pub open spec fn trim_end_of(s: Seq<char>, drop: spec_fn(char) -> bool) -> Seq<char>
    decreases s.len(),
{
    if s.len() > 0 && drop(s.last()) {
        trim_end_of(s.drop_last(), drop)
    } else {
        s
    }
}

/// `s` without leading and trailing white space.
pub open spec fn trim(s: Seq<char>) -> Seq<char> {
    trim_end_of(trim_start_of(s, whitespace()), whitespace())
}

/// `s` without leading and trailing copies of `d`.
pub open spec fn trim_char(s: Seq<char>, d: char) -> Seq<char> {
    trim_end_of(trim_start_of(s, only(d)), only(d))
}

/// `s` without trailing copies of `d`.
pub open spec fn trim_end_char(s: Seq<char>, d: char) -> Seq<char> {
    trim_end_of(s, only(d))
}

/// The first `n` words of `s`, words being what white space separates; an empty
/// word stands for each one that is missing.
pub open spec fn first_words(s: Seq<char>, n: nat) -> Seq<Seq<char>>
    decreases n,
{
    if n == 0 {
        seq![]
    } else {
        let rest = trim_start_of(s, whitespace());
        let end = word_end(rest);
        seq![rest.take(end)] + first_words(rest.skip(end), (n - 1) as nat)
    }
}

/// The position of the first white space in `s`, or the length of `s`.
pub open spec fn word_end(s: Seq<char>) -> int
    decreases s.len(),
{
    if s.len() == 0 || is_whitespace(s[0]) {
        0
    } else {
        1 + word_end(s.drop_first())
    }
}

/// The first line of `s`, without the line feed that ends it or the carriage
/// return before that line feed.
pub open spec fn first_line(s: Seq<char>) -> Seq<char> {
    match split_once_char(s, '\n') {
        Some((line, _)) => if line.len() > 0 && line.last() == '\r' {
            line.drop_last()
        } else {
            line
        },
        None => s,
    }
}

/// The decimal digit `d`.
pub open spec fn digit(d: nat) -> char {
    (48 + d) as char
}

/// `n` in decimal.
pub open spec fn decimal(n: nat) -> Seq<char>
    decreases n,
{
    if n < 10 {
        seq![digit(n)]
    } else {
        decimal(n / 10).push(digit(n % 10))
    }
}

/// What the strings of a list hold.
pub open spec fn views(v: Seq<&str>) -> Seq<Seq<char>> {
    v.map_values(|t: &str| t@)
}

/// What an optional string holds.
pub open spec fn opt_view(s: Option<&str>) -> Option<Seq<char>> {
    match s {
        Some(t) => Some(t@),
        None => None,
    }
}

/// What an optional owned string holds.
pub open spec fn opt_string_view(s: Option<String>) -> Option<Seq<char>> {
    match s {
        Some(t) => Some(t@),
        None => None,
    }
}

// ---------------------------------------------------------------------------
// Facts about them
// ---------------------------------------------------------------------------

/// `find_char` gives the first occurrence.
pub proof fn lemma_find_char(s: Seq<char>, c: char)
    ensures
        0 <= find_char(s, c) <= s.len(),
        forall|j: int| 0 <= j < find_char(s, c) ==> s[j] != c,
        s.contains(c) <==> find_char(s, c) < s.len(),
        s.contains(c) ==> s[find_char(s, c)] == c,
    decreases s.len(),
{
    if s.len() > 0 && s[0] != c {
        let t = s.drop_first();
        lemma_find_char(t, c);
        assert forall|j: int| 0 <= j < find_char(s, c) implies s[j] != c by {
            if j > 0 {
                assert(s[j] == t[j - 1]);
            }
        }
        if s.contains(c) {
            let k = s.index_of(c);
            assert(t[k - 1] == c);
        }
        if t.contains(c) {
            assert(s[find_char(s, c)] == t[find_char(t, c)]);
        }
    }
}

/// The first occurrence is the only position before which there is none.
pub proof fn lemma_find_char_is(s: Seq<char>, c: char, i: int)
    requires
        0 <= i <= s.len(),
        i < s.len() ==> s[i] == c,
        forall|j: int| 0 <= j < i ==> s[j] != c,
    ensures
        find_char(s, c) == i,
        s.contains(c) <==> i < s.len(),
{
    lemma_find_char(s, c);
    let k = find_char(s, c);
    if k < i {
        assert(s[k] != c);
        assert(k < s.len());
        assert(s.contains(c));
    } else if k > i {
        assert(s[i] != c);
    }
}

/// The two halves of a split and the separator make up the whole, and the first
/// half is free of the separator.
pub proof fn lemma_split_once_char(s: Seq<char>, c: char)
    ensures
        split_once_char(s, c) is Some <==> s.contains(c),
        split_once_char(s, c) matches Some((before, after)) ==> {
            &&& s == before + seq![c] + after
            &&& !before.contains(c)
            &&& after.len() < s.len()
        },
{
    lemma_find_char(s, c);
    if let Some((before, after)) = split_once_char(s, c) {
        assert(s =~= before + seq![c] + after);
    }
}

/// A text made of a half free of the separator, the separator and another half
/// splits into these halves.
pub proof fn lemma_split_once_char_of(before: Seq<char>, c: char, after: Seq<char>)
    requires
        !before.contains(c),
    ensures
        split_once_char(before + seq![c] + after, c) == Some((before, after)),
{
    let s = before + seq![c] + after;
    let n = before.len() as int;
    assert forall|j: int| 0 <= j < n implies s[j] != c by {
        assert(s[j] == before[j]);
        assert(before.contains(before[j]));
    }
    assert(s[n] == c);
    lemma_find_char_is(s, c, n);
    assert(s.take(n) =~= before);
    assert(s.skip(n + 1) =~= after);
}

/// What `find_text_from` gives is the first occurrence.
pub proof fn lemma_find_text_from(s: Seq<char>, p: Seq<char>, from: int)
    requires
        0 <= from,
    ensures
        find_text_from(s, p, from) matches Some(i) ==> {
            &&& from <= i
            &&& occurs_at(s, p, i)
            &&& forall|j: int| from <= j < i ==> !occurs_at(s, p, j)
        },
        find_text_from(s, p, from) is None ==> forall|j: int|
            from <= j ==> !occurs_at(s, p, j),
    decreases s.len() - from + 1,
{
    if from <= s.len() && !occurs_at(s, p, from) {
        lemma_find_text_from(s, p, from + 1);
    }
}

/// A first occurrence is what `find_text_from` gives.
pub proof fn lemma_find_text_is(s: Seq<char>, p: Seq<char>, i: int)
    requires
        occurs_at(s, p, i),
        forall|j: int| 0 <= j < i ==> !occurs_at(s, p, j),
    ensures
        find_text_from(s, p, 0) == Some(i),
{
    lemma_find_text_from(s, p, 0);
}

// ---------------------------------------------------------------------------
// The operations
// ---------------------------------------------------------------------------

/// The characters of a string.
pub fn chars_of(s: &str) -> (v: Vec<char>)
    ensures
        v@ == s@,
{
    let mut v: Vec<char> = Vec::new();
    for c in it: s.chars()
        invariant
            v@ == s@.take(it.index() as int),
            it.seq() == s@,
    {
        v.push(c);
    }
    v
}

/// Whether two strings hold the same characters.
pub fn same_text(a: &str, b: &str) -> (r: bool)
    ensures
        r == (a@ == b@),
{
    let x = chars_of(a);
    let y = chars_of(b);
    if x.len() != y.len() {
        return false;
    }
    let n: usize = x.len();
    for i in 0..n
        invariant
            n == x@.len(),
            n == y@.len(),
            x@ == a@,
            y@ == b@,
            forall|j: int| 0 <= j < i ==> x@[j] == y@[j],
    {
        if x[i] != y[i] {
            assert(a@[i as int] != b@[i as int]);
            return false;
        }
    }
    assert(x@ =~= y@);
    true
}

/// What stands before and after the first `c`, if there is one.
pub fn split_once_at<'a>(s: &'a str, c: char) -> (r: Option<(&'a str, &'a str)>)
    ensures
        match r {
            Some((before, after)) => split_once_char(s@, c) == Some((before@, after@)),
            None => split_once_char(s@, c) is None,
        },
{
    let v = chars_of(s);
    let n: usize = v.len();
    let mut i: usize = 0;
    while i < n && v[i] != c
        invariant
            n == v@.len(),
            i <= n,
            forall|j: int| 0 <= j < i ==> v@[j] != c,
        decreases n - i,
    {
        i += 1;
    }
    proof {
        lemma_find_char_is(s@, c, i as int);
    }
    if i < n {
        Some((s.substring_char(0, i), s.substring_char(i + 1, n)))
    } else {
        None
    }
}

/// What stands before the first `c`; all of `s` if there is none.
pub fn text_before<'a>(s: &'a str, c: char) -> (r: &'a str)
    ensures
        r@ == before_char(s@, c),
{
    proof {
        lemma_find_char(s@, c);
    }
    match split_once_at(s, c) {
        Some((before, _)) => before,
        None => {
            assert(s@.take(s@.len() as int) =~= s@);
            s
        },
    }
}

/// Whether `c` occurs in `s`.
pub fn contains_char(s: &str, c: char) -> (r: bool)
    ensures
        r == s@.contains(c),
{
    proof {
        lemma_split_once_char(s@, c);
    }
    split_once_at(s, c).is_some()
}

/// The pieces of `s` between its occurrences of `c`.
pub fn split_at_each<'a>(s: &'a str, c: char) -> (r: Vec<&'a str>)
    ensures
        views(r@) == pieces(s@, c),
        r@.len() > 0,
{
    let mut out: Vec<&'a str> = Vec::new();
    let mut rest: &'a str = s;
    assert(views(out@) + pieces(rest@, c) =~= pieces(s@, c));
    loop
        invariant_except_break
            views(out@) + pieces(rest@, c) == pieces(s@, c),
        ensures
            views(out@) == pieces(s@, c),
            out@.len() > 0,
        decreases rest@.len(),
    {
        proof {
            lemma_split_once_char(rest@, c);
        }
        let ghost seen = out@;
        match split_once_at(rest, c) {
            Some((before, after)) => {
                out.push(before);
                assert(views(out@) =~= views(seen) + seq![before@]);
                assert(views(out@) + pieces(after@, c) =~= views(seen) + (seq![before@] + pieces(
                    after@,
                    c,
                )));
                rest = after;
            },
            None => {
                out.push(rest);
                assert(views(out@) =~= views(seen) + seq![rest@]);
                break;
            },
        }
    }
    out
}

/// What follows the prefix `p`, if `s` begins with it.
pub fn after_prefix<'a>(s: &'a str, p: &str) -> (r: Option<&'a str>)
    ensures
        opt_view(r) == strip_prefix(s@, p@),
{
    let v = chars_of(s);
    let q = chars_of(p);
    if v.len() < q.len() {
        return None;
    }
    if matches_at(&v, &q, 0) {
        assert(s@.subrange(0, p@.len() as int) == p@);
        let tail = s.substring_char(q.len(), v.len());
        assert(tail@ =~= s@.skip(p@.len() as int));
        Some(tail)
    } else {
        assert(!p@.is_prefix_of(s@));
        None
    }
}

/// Whether `s` begins with `p`.
pub fn begins_with(s: &str, p: &str) -> (r: bool)
    ensures
        r == p@.is_prefix_of(s@),
{
    after_prefix(s, p).is_some()
}

/// Whether `q` stands in `v` at position `at`.
fn matches_at(v: &Vec<char>, q: &Vec<char>, at: usize) -> (r: bool)
    requires
        at + q@.len() <= v@.len(),
    ensures
        r == occurs_at(v@, q@, at as int),
{
    let n: usize = q.len();
    let total: usize = v.len();
    for i in 0..n
        invariant
            n == q@.len(),
            total == v@.len(),
            at + n <= total,
            forall|j: int| 0 <= j < i ==> v@[at + j] == q@[j],
    {
        if v[at + i] != q[i] {
            assert(v@.subrange(at as int, at + q@.len())[i as int] != q@[i as int]);
            return false;
        }
    }
    assert(v@.subrange(at as int, at + q@.len()) =~= q@);
    true
}

/// What stands before and after the first occurrence of `p`, if there is one.
pub fn split_once_around<'a>(s: &'a str, p: &str) -> (r: Option<(&'a str, &'a str)>)
    ensures
        match r {
            Some((before, after)) => split_once_text(s@, p@) == Some((before@, after@)),
            None => split_once_text(s@, p@) is None,
        },
{
    let v = chars_of(s);
    let q = chars_of(p);
    if v.len() < q.len() {
        proof {
            lemma_find_text_from(s@, p@, 0);
        }
        return None;
    }
    let last: usize = v.len() - q.len();
    let mut i: usize = 0;
    let total: usize = v.len();
    loop
        invariant
            v@ == s@,
            q@ == p@,
            total == v@.len(),
            last == total - q@.len(),
            i <= last,
            forall|j: int| 0 <= j < i ==> !occurs_at(s@, p@, j),
        ensures
            forall|j: int| 0 <= j <= last ==> !occurs_at(s@, p@, j),
        decreases last - i,
    {
        if matches_at(&v, &q, i) {
            proof {
                lemma_find_text_is(s@, p@, i as int);
            }
            let before = s.substring_char(0, i);
            let after = s.substring_char(i + q.len(), total);
            assert(before@ =~= s@.take(i as int));
            assert(after@ =~= s@.skip(i + p@.len()));
            return Some((before, after));
        }
        if i == last {
            break;
        }
        i += 1;
    }
    proof {
        lemma_find_text_from(s@, p@, 0);
    }
    None
}

/// Whether `p` occurs in `s`.
pub fn contains_text(s: &str, p: &str) -> (r: bool)
    ensures
        r == has_text(s@, p@),
{
    proof {
        lemma_find_text_from(s@, p@, 0);
    }
    split_once_around(s, p).is_some()
}

/// Whether `c` is white space.
pub fn is_whitespace_char(c: char) -> (r: bool)
    ensures
        r == is_whitespace(c),
{
    ('\u{9}' <= c && c <= '\u{d}') || c == '\u{20}' || c == '\u{85}' || c == '\u{a0}' || c
        == '\u{1680}' || ('\u{2000}' <= c && c <= '\u{200a}') || ('\u{2028}' <= c && c
        <= '\u{2029}') || c == '\u{202f}' || c == '\u{205f}' || c == '\u{3000}'
}

/// Dropping characters from the front, one position at a time.
proof fn lemma_trim_start_at(s: Seq<char>, drop: spec_fn(char) -> bool, i: int)
    requires
        0 <= i <= s.len(),
        forall|j: int| 0 <= j < i ==> #[trigger] drop(s[j]),
        i < s.len() ==> !drop(s[i]),
    ensures
        trim_start_of(s, drop) == s.skip(i),
    decreases s.len(),
{
    if i == 0 {
        assert(s.skip(0) =~= s);
    } else {
        assert(drop(s[0]));
        let t = s.drop_first();
        assert forall|j: int| 0 <= j < i - 1 implies #[trigger] drop(t[j]) by {
            assert(drop(s[j + 1]));
        }
        lemma_trim_start_at(t, drop, i - 1);
        assert(t.skip(i - 1) =~= s.skip(i));
    }
}

/// Dropping characters from the back, one position at a time.
proof fn lemma_trim_end_at(s: Seq<char>, drop: spec_fn(char) -> bool, i: int)
    requires
        0 <= i <= s.len(),
        forall|j: int| i <= j < s.len() ==> #[trigger] drop(s[j]),
        i > 0 ==> !drop(s[i - 1]),
    ensures
        trim_end_of(s, drop) == s.take(i),
    decreases s.len(),
{
    if i == s.len() {
        assert(s.take(i) =~= s);
    } else {
        assert(drop(s[s.len() - 1]));
        let t = s.drop_last();
        assert forall|j: int| i <= j < t.len() implies #[trigger] drop(t[j]) by {
            assert(drop(s[j]));
        }
        lemma_trim_end_at(t, drop, i);
        assert(t.take(i) =~= s.take(i));
    }
}

/// `s` without leading white space.
pub fn trim_start_text<'a>(s: &'a str) -> (r: &'a str)
    ensures
        r@ == trim_start_of(s@, whitespace()),
{
    let v = chars_of(s);
    let n: usize = v.len();
    let mut i: usize = 0;
    while i < n && is_whitespace_char(v[i])
        invariant
            n == v@.len(),
            i <= n,
            forall|j: int| 0 <= j < i ==> is_whitespace(#[trigger] v@[j]),
        decreases n - i,
    {
        i += 1;
    }
    proof {
        lemma_trim_start_at(s@, whitespace(), i as int);
    }
    let r = s.substring_char(i, n);
    assert(r@ =~= s@.skip(i as int));
    r
}

/// `s` without leading and trailing white space.
pub fn trim_text<'a>(s: &'a str) -> (r: &'a str)
    ensures
        r@ == trim(s@),
{
    let t = trim_start_text(s);
    let v = chars_of(t);
    let n: usize = v.len();
    let mut i: usize = n;
    while i > 0 && is_whitespace_char(v[i - 1])
        invariant
            n == v@.len(),
            i <= n,
            forall|j: int| i <= j < n ==> is_whitespace(#[trigger] v@[j]),
        decreases i,
    {
        i -= 1;
    }
    proof {
        lemma_trim_end_at(t@, whitespace(), i as int);
    }
    let r = t.substring_char(0, i);
    assert(r@ =~= t@.take(i as int));
    r
}

/// `s` without trailing copies of `d`.
pub fn trim_end_char_text<'a>(s: &'a str, d: char) -> (r: &'a str)
    ensures
        r@ == trim_end_char(s@, d),
{
    let v = chars_of(s);
    let n: usize = v.len();
    let mut i: usize = n;
    while i > 0 && v[i - 1] == d
        invariant
            n == v@.len(),
            i <= n,
            forall|j: int| i <= j < n ==> v@[j] == d,
        decreases i,
    {
        i -= 1;
    }
    proof {
        lemma_trim_end_at(s@, only(d), i as int);
    }
    let r = s.substring_char(0, i);
    assert(r@ =~= s@.take(i as int));
    r
}

/// `s` without leading and trailing copies of `d`.
pub fn trim_char_text<'a>(s: &'a str, d: char) -> (r: &'a str)
    ensures
        r@ == trim_char(s@, d),
{
    let v = chars_of(s);
    let n: usize = v.len();
    let mut i: usize = 0;
    while i < n && v[i] == d
        invariant
            n == v@.len(),
            i <= n,
            forall|j: int| 0 <= j < i ==> v@[j] == d,
        decreases n - i,
    {
        i += 1;
    }
    proof {
        lemma_trim_start_at(s@, only(d), i as int);
    }
    let t = s.substring_char(i, n);
    assert(t@ =~= s@.skip(i as int));
    trim_end_char_text(t, d)
}

/// The position of the first white space.
fn end_of_word(v: &Vec<char>) -> (i: usize)
    ensures
        i == word_end(v@),
        i <= v@.len(),
{
    let n: usize = v.len();
    let mut i: usize = 0;
    assert(v@.skip(0) =~= v@);
    while i < n && !is_whitespace_char(v[i])
        invariant
            n == v@.len(),
            i <= n,
            word_end(v@) == i + word_end(v@.skip(i as int)),
        decreases n - i,
    {
        assert(v@.skip(i as int).drop_first() =~= v@.skip(i + 1));
        i += 1;
    }
    i
}

/// The first three words of `s`, each empty if it is missing.
pub fn three_words<'a>(s: &'a str) -> (r: (&'a str, &'a str, &'a str))
    ensures
        first_words(s@, 3) == seq![r.0@, r.1@, r.2@],
{
    let (a, s1) = next_word(s);
    let (b, s2) = next_word(s1);
    let (c, s3) = next_word(s2);
    proof {
        reveal_with_fuel(first_words, 4);
        assert(first_words(s@, 3) =~= seq![a@, b@, c@]);
    }
    (a, b, c)
}

/// The first word of `s` and what follows it.
fn next_word<'a>(s: &'a str) -> (r: (&'a str, &'a str))
    ensures
        ({
            let rest = trim_start_of(s@, whitespace());
            r.0@ == rest.take(word_end(rest)) && r.1@ == rest.skip(word_end(rest))
        }),
{
    let rest = trim_start_text(s);
    let v = chars_of(rest);
    let end: usize = end_of_word(&v);
    let word = rest.substring_char(0, end);
    let tail = rest.substring_char(end, v.len());
    assert(word@ =~= rest@.take(end as int));
    assert(tail@ =~= rest@.skip(end as int));
    (word, tail)
}

/// The first line of `s`.
pub fn first_line_of<'a>(s: &'a str) -> (r: &'a str)
    ensures
        r@ == first_line(s@),
{
    match split_once_at(s, '\n') {
        Some((line, _)) => {
            let v = chars_of(line);
            let n: usize = v.len();
            if n > 0 && v[n - 1] == '\r' {
                let r = line.substring_char(0, n - 1);
                assert(r@ =~= line@.drop_last());
                r
            } else {
                line
            }
        },
        None => s,
    }
}

/// `n` in decimal.
pub fn decimal_text(n: u64) -> (s: String)
    ensures
        s@ == decimal(n as nat),
    decreases n,
{
    if n < 10 {
        let mut s = String::new();
        s.push((48 + n as u8) as char);
        assert(s@ =~= seq![digit(n as nat)]);
        s
    } else {
        let mut s = decimal_text(n / 10);
        s.push((48 + (n % 10) as u8) as char);
        s
    }
}

// ---------------------------------------------------------------------------
// Laws
// ---------------------------------------------------------------------------

/// What stands before the first `c` is the longest beginning of the text without a `c`.
pub proof fn law_text_before_first(s: Seq<char>, c: char)
    ensures
        !before_char(s, c).contains(c),
        before_char(s, c).len() <= s.len(),
        s.take(before_char(s, c).len() as int) == before_char(s, c),
        before_char(s, c).len() < s.len() ==> s[before_char(s, c).len() as int] == c,
{
    lemma_find_char(s, c);
    let before = before_char(s, c);
    assert forall|j: int| 0 <= j < before.len() implies before[j] != c by {
        assert(before[j] == s[j]);
    }
}

/// A text without a `c` is its only piece; a piece without a `c`, a `c` and more text have
/// that piece and the pieces of the text.
pub proof fn law_pieces(first: Seq<char>, c: char, rest: Seq<char>)
    requires
        !first.contains(c),
    ensures
        pieces(first, c) == seq![first],
        pieces(first + seq![c] + rest, c) == seq![first] + pieces(rest, c),
{
    lemma_split_once_char_of(first, c, rest);
    assert((first + seq![c] + rest)[first.len() as int] == c);
}

/// A text occurs in whatever it is a middle part of, and nowhere else.
pub proof fn law_occurrence(before: Seq<char>, p: Seq<char>, after: Seq<char>, s: Seq<char>)
    ensures
        has_text(before + p + after, p),
        has_text(s, p) ==> exists|a: Seq<char>, b: Seq<char>| #[trigger] (a + p + b) == s,
{
    let whole = before + p + after;
    let n = before.len() as int;
    assert(whole.subrange(n, n + p.len()) =~= p);
    assert(occurs_at(whole, p, n));
    if has_text(s, p) {
        let i = choose|i: int| occurs_at(s, p, i);
        let a = s.take(i);
        let b = s.skip(i + p.len());
        assert(a + p + b =~= s) by {
            assert(s.subrange(i, i + p.len()) == p);
            assert forall|k: int| 0 <= k < s.len() implies (a + p + b)[k] == s[k] by {
                if i <= k < i + p.len() {
                    assert(s.subrange(i, i + p.len())[k - i] == p[k - i]);
                }
            }
        }
    }
}

/// A split around `p` gives the halves around its first occurrence: together with `p` they
/// make up the text, and `p` does not stand at any earlier position. There is a split
/// exactly if `p` stands somewhere.
pub proof fn law_split_around(s: Seq<char>, p: Seq<char>)
    ensures
        match split_once_text(s, p) {
            Some((before, after)) => {
                &&& s == before + p + after
                &&& forall|j: int|
                    0 <= j < before.len() ==> j + p.len() > s.len() || #[trigger] s.subrange(
                        j,
                        j + p.len(),
                    ) != p
            },
            None => forall|j: int|
                0 <= j && j + p.len() <= s.len() ==> #[trigger] s.subrange(j, j + p.len()) != p,
        },
{
    lemma_find_text_from(s, p, 0);
    match split_once_text(s, p) {
        Some((before, after)) => {
            let i = before.len() as int;
            assert(occurs_at(s, p, i));
            assert(s =~= before + p + after) by {
                assert forall|k: int| 0 <= k < s.len() implies (before + p + after)[k] == s[k] by {
                    if i <= k < i + p.len() {
                        assert(s.subrange(i, i + p.len())[k - i] == p[k - i]);
                    }
                }
            }
            assert forall|j: int| 0 <= j < before.len() implies j + p.len() > s.len()
                || #[trigger] s.subrange(j, j + p.len()) != p by {
                assert(!occurs_at(s, p, j));
            }
        },
        None => {
            assert forall|j: int| 0 <= j && j + p.len() <= s.len() implies #[trigger] s.subrange(
                j,
                j + p.len(),
            ) != p by {
                assert(!occurs_at(s, p, j));
            }
        },
    }
}

/// A prefix comes off exactly the texts that are it and something more, and leaves that.
pub proof fn law_prefix_comes_off(p: Seq<char>, rest: Seq<char>, s: Seq<char>)
    ensures
        strip_prefix(p + rest, p) == Some(rest),
        strip_prefix(s, p) matches Some(tail) ==> s == p + tail,
{
    assert(p.is_prefix_of(p + rest));
    assert((p + rest).skip(p.len() as int) =~= rest);
    if p.is_prefix_of(s) {
        assert(s =~= p + s.skip(p.len() as int));
    }
}

/// A text is what is left of it and what is dropped from its end, all of it of `drop`;
/// what is left does not end with such a character.
proof fn lemma_trim_end_splits(s: Seq<char>, drop: spec_fn(char) -> bool)
    ensures
        trim_end_of(s, drop).len() <= s.len(),
        trim_end_of(s, drop) == s.take(trim_end_of(s, drop).len() as int),
        trim_end_of(s, drop).len() > 0 ==> !drop(trim_end_of(s, drop).last()),
        forall|j: int| trim_end_of(s, drop).len() <= j < s.len() ==> drop(#[trigger] s[j]),
    decreases s.len(),
{
    if s.len() > 0 && drop(s.last()) {
        let t = s.drop_last();
        lemma_trim_end_splits(t, drop);
        let r = trim_end_of(s, drop);
        assert(r =~= s.take(r.len() as int));
        assert forall|j: int| r.len() <= j < s.len() implies drop(#[trigger] s[j]) by {
            if j < t.len() {
                assert(drop(t[j]));
            }
        }
    } else {
        assert(s =~= s.take(s.len() as int));
    }
}

/// A text is what is dropped from its front, all of it of `drop`, and the rest, which does
/// not begin with such a character.
proof fn lemma_trim_start_splits(s: Seq<char>, drop: spec_fn(char) -> bool)
    ensures
        trim_start_of(s, drop).len() <= s.len(),
        trim_start_of(s, drop) == s.skip(s.len() - trim_start_of(s, drop).len()),
        trim_start_of(s, drop).len() > 0 ==> !drop(trim_start_of(s, drop)[0]),
        forall|j: int|
            0 <= j < s.len() - trim_start_of(s, drop).len() ==> drop(#[trigger] s[j]),
    decreases s.len(),
{
    if s.len() > 0 && drop(s[0]) {
        let t = s.drop_first();
        lemma_trim_start_splits(t, drop);
        let r = trim_start_of(s, drop);
        assert(r =~= s.skip(s.len() - r.len()));
        assert forall|j: int| 0 <= j < s.len() - r.len() implies drop(#[trigger] s[j]) by {
            if j > 0 {
                assert(drop(t[j - 1]));
            }
        }
    } else {
        assert(s =~= s.skip(0));
    }
}

/// Trimmed text is a part of the text, between two runs of the dropped characters.
proof fn lemma_trim_both(s: Seq<char>, drop: spec_fn(char) -> bool) -> (from: int)
    ensures
        ({
            let r = trim_end_of(trim_start_of(s, drop), drop);
            &&& 0 <= from && from + r.len() <= s.len()
            &&& r == s.subrange(from, from + r.len())
            &&& forall|j: int| 0 <= j < from ==> drop(#[trigger] s[j])
            &&& forall|j: int| from + r.len() <= j < s.len() ==> drop(#[trigger] s[j])
            &&& r.len() > 0 ==> !drop(r[0]) && !drop(r.last())
        }),
{
    let t = trim_start_of(s, drop);
    let r = trim_end_of(t, drop);
    lemma_trim_start_splits(s, drop);
    lemma_trim_end_splits(t, drop);
    let from = s.len() - t.len();
    assert(r =~= s.subrange(from, from + r.len()));
    assert forall|j: int| from + r.len() <= j < s.len() implies drop(#[trigger] s[j]) by {
        assert(s[j] == t[j - from]);
        assert(drop(t[j - from]));
    }
    if r.len() > 0 {
        assert(r[0] == t[0]);
    }
    from
}

/// Trimming takes away white space at both ends, all of it, and nothing else.
pub proof fn law_trim(s: Seq<char>)
    ensures
        exists|from: int|
            {
                &&& 0 <= from && from + trim(s).len() <= s.len()
                &&& trim(s) == #[trigger] s.subrange(from, from + trim(s).len())
                &&& forall|j: int| 0 <= j < from ==> is_whitespace(#[trigger] s[j])
                &&& forall|j: int|
                    from + trim(s).len() <= j < s.len() ==> is_whitespace(#[trigger] s[j])
            },
        trim(s).len() > 0 ==> !is_whitespace(trim(s)[0]) && !is_whitespace(trim(s).last()),
{
    let from = lemma_trim_both(s, whitespace());
    assert(trim(s) == s.subrange(from, from + trim(s).len()));
    assert forall|j: int| 0 <= j < from implies is_whitespace(#[trigger] s[j]) by {
        assert(whitespace()(s[j]));
    }
    assert forall|j: int| from + trim(s).len() <= j < s.len() implies is_whitespace(
        #[trigger] s[j],
    ) by {
        assert(whitespace()(s[j]));
    }
}

/// Trimming a character takes it away at both ends, all copies, and nothing else.
pub proof fn law_trim_char(s: Seq<char>, d: char)
    ensures
        exists|from: int|
            {
                &&& 0 <= from && from + trim_char(s, d).len() <= s.len()
                &&& trim_char(s, d) == #[trigger] s.subrange(from, from + trim_char(s, d).len())
                &&& forall|j: int| 0 <= j < from ==> #[trigger] s[j] == d
                &&& forall|j: int|
                    from + trim_char(s, d).len() <= j < s.len() ==> #[trigger] s[j] == d
            },
        trim_char(s, d).len() > 0 ==> trim_char(s, d)[0] != d && trim_char(s, d).last() != d,
{
    let from = lemma_trim_both(s, only(d));
    assert(trim_char(s, d) == s.subrange(from, from + trim_char(s, d).len()));
    assert forall|j: int| 0 <= j < from implies #[trigger] s[j] == d by {
        assert(only(d)(s[j]));
    }
    assert forall|j: int| from + trim_char(s, d).len() <= j < s.len() implies #[trigger] s[j]
        == d by {
        assert(only(d)(s[j]));
    }
}

/// Trimming a character at the end takes away all copies there, and nothing else.
pub proof fn law_trim_end_char(s: Seq<char>, d: char)
    ensures
        trim_end_char(s, d).len() <= s.len(),
        trim_end_char(s, d) == s.take(trim_end_char(s, d).len() as int),
        trim_end_char(s, d).len() > 0 ==> trim_end_char(s, d).last() != d,
        forall|j: int| trim_end_char(s, d).len() <= j < s.len() ==> #[trigger] s[j] == d,
{
    lemma_trim_end_splits(s, only(d));
    assert forall|j: int| trim_end_char(s, d).len() <= j < s.len() implies #[trigger] s[j] == d by {
        assert(only(d)(s[j]));
    }
}

/// The first word is what stands between white space and white space or the end; the
/// words after it are those of what follows.
pub proof fn law_first_word(space: Seq<char>, word: Seq<char>, rest: Seq<char>, n: nat)
    requires
        forall|j: int| 0 <= j < space.len() ==> is_whitespace(#[trigger] space[j]),
        forall|j: int| 0 <= j < word.len() ==> !is_whitespace(#[trigger] word[j]),
        word.len() > 0 || rest.len() == 0,
        rest.len() > 0 ==> is_whitespace(rest[0]),
    ensures
        first_words(space + word + rest, n + 1) == seq![word] + first_words(rest, n),
{
    let s = space + word + rest;
    assert forall|j: int| 0 <= j < space.len() implies #[trigger] whitespace()(s[j]) by {
        assert(s[j] == space[j]);
    }
    if space.len() < s.len() {
        assert(s[space.len() as int] == word[0]);
    }
    lemma_trim_start_at(s, whitespace(), space.len() as int);
    let t = word + rest;
    assert(s.skip(space.len() as int) =~= t);
    lemma_word_end(word, rest);
    assert(t.take(word.len() as int) =~= word);
    assert(t.skip(word.len() as int) =~= rest);
}

/// A word ends where white space or the end follows.
proof fn lemma_word_end(word: Seq<char>, rest: Seq<char>)
    requires
        forall|j: int| 0 <= j < word.len() ==> !is_whitespace(#[trigger] word[j]),
        rest.len() > 0 ==> is_whitespace(rest[0]),
    ensures
        word_end(word + rest) == word.len(),
    decreases word.len(),
{
    let t = word + rest;
    if word.len() > 0 {
        assert(!is_whitespace(word[0]));
        assert(t[0] == word[0]);
        assert(t.drop_first() =~= word.drop_first() + rest);
        lemma_word_end(word.drop_first(), rest);
    } else {
        assert(t =~= rest);
    }
}

/// The first line ends at the first line feed, and a carriage return right before that is
/// no part of it; a text without a line feed is one line.
pub proof fn law_first_line(line: Seq<char>, rest: Seq<char>)
    requires
        !line.contains('\n'),
    ensures
        first_line(line) == line,
        first_line(line + seq!['\r', '\n'] + rest) == line,
        (line.len() == 0 || line.last() != '\r') ==> first_line(line + seq!['\n'] + rest) == line,
{
    let long = line.push('\r');
    assert(!long.contains('\n')) by {
        assert forall|j: int| 0 <= j < long.len() implies long[j] != '\n' by {
            if j < line.len() {
                assert(line.contains(line[j]));
            }
        }
    }
    assert(line + seq!['\r', '\n'] + rest =~= long + seq!['\n'] + rest);
    lemma_split_once_char_of(long, '\n', rest);
    lemma_split_once_char_of(line, '\n', rest);
    assert(long.drop_last() =~= line);
}

/// The number that decimal digits stand for.
pub open spec fn number_of(digits: Seq<char>) -> int
    decreases digits.len(),
{
    if digits.len() == 0 {
        0
    } else {
        number_of(digits.drop_last()) * 10 + (digits.last() as int - '0' as int)
    }
}

/// A number in decimal is made of digits that stand for that number, without a zero in
/// front.
pub proof fn law_decimal(n: nat)
    ensures
        number_of(decimal(n)) == n,
        decimal(n).len() > 0,
        forall|j: int| 0 <= j < decimal(n).len() ==> '0' <= #[trigger] decimal(n)[j] <= '9',
        decimal(n).len() > 1 ==> decimal(n)[0] != '0',
    decreases n,
{
    reveal_with_fuel(number_of, 2);
    if n >= 10 {
        law_decimal(n / 10);
        let front = decimal(n / 10);
        assert(decimal(n).drop_last() =~= front);
        assert forall|j: int| 0 <= j < decimal(n).len() implies '0' <= #[trigger] decimal(n)[j]
            <= '9' by {
            if j < front.len() {
                assert(decimal(n)[j] == front[j]);
            }
        }
        assert(decimal(n)[0] == front[0]);
        if front.len() == 1 {
            assert(front.drop_last() =~= seq![]);
            assert(number_of(front) == front[0] as int - '0' as int);
        }
    } else {
        assert(decimal(n).drop_last() =~= seq![]);
    }
}

/// White space is what Unicode calls so: tab to carriage return, the space, the next-line
/// mark, the spaces of all widths, and the separators of lines and paragraphs.
pub proof fn law_white_space(c: char)
    ensures
        is_whitespace(c) <==> {
            let code = c as int;
            ||| 9 <= code <= 13
            ||| code == 32
            ||| code == 133
            ||| code == 160
            ||| code == 5760
            ||| 8192 <= code <= 8202
            ||| code == 8232
            ||| code == 8233
            ||| code == 8239
            ||| code == 8287
            ||| code == 12288
        },
{
}

/// What is seen of texts is what they hold, each at its place; what is missing is seen as
/// missing.
pub proof fn law_texts_are_seen_as_they_are(text: &str, owned: String, list: Seq<&str>, i: int)
    requires
        0 <= i < list.len(),
    ensures
        opt_view(Some(text)) == Some(text@),
        opt_view(None) is None,
        opt_string_view(Some(owned)) == Some(owned@),
        opt_string_view(None) is None,
        views(list).len() == list.len(),
        views(list)[i] == list[i]@,
{
}

} // verus!
