//! Where a cache entry lies on disk, and what its place says about it.

use vstd::prelude::*;

use crate::config::DockerHost;
use crate::text::{chars_of, lemma_split_once_char_of, pieces, same_text, split_at_each, views};

verus! {

// ---------------------------------------------------------------------------
// Paths
// ---------------------------------------------------------------------------

/// How paths are written on a machine.
#[derive(Clone, Copy, PartialEq, Eq, Structural, Debug)]
pub enum PathStyle {
    /// Components are separated by slashes.
    Unix,
    /// Components are separated by backslashes or slashes, and a path may begin with the
    /// letter of a drive and a colon.
    Windows,
}

/// Whether a character separates components.
pub open spec fn is_separator(style: PathStyle, c: char) -> bool {
    c == '/' || (style == PathStyle::Windows && c == '\\')
}

/// The character that is put between components.
pub open spec fn main_separator(style: PathStyle) -> char {
    match style {
        PathStyle::Unix => '/',
        PathStyle::Windows => '\\',
    }
}

/// `path` with a slash for every separator.
pub open spec fn slashed(style: PathStyle, path: Seq<char>) -> Seq<char> {
    path.map_values(
        |c: char|
            if is_separator(style, c) {
                '/'
            } else {
                c
            },
    )
}

/// What stands between the separators in a path.
pub open spec fn path_pieces(style: PathStyle, path: Seq<char>) -> Seq<Seq<char>> {
    pieces(slashed(style, path), '/')
}

/// Whether a path begins with the letter of a drive and a colon.
pub open spec fn has_drive(style: PathStyle, path: Seq<char>) -> bool {
    &&& style == PathStyle::Windows
    &&& path.len() >= 2
    &&& 'a' <= path[0] <= 'z' || 'A' <= path[0] <= 'Z'
    &&& path[1] == ':'
}

/// Whether a component names something: it is not empty, and neither of the names
/// for the directory itself and its parent.
pub open spec fn is_normal(component: Seq<char>) -> bool {
    component.len() > 0 && component != "."@ && component != ".."@
}

/// The components of a path below some directory that name something, in order.
pub open spec fn normal_components(style: PathStyle, path: Seq<char>) -> Seq<Seq<char>> {
    normal_only(path_pieces(style, path))
}

/// The components among the given ones that name something.
pub open spec fn normal_only(components: Seq<Seq<char>>) -> Seq<Seq<char>>
    decreases components.len(),
{
    if components.len() == 0 {
        seq![]
    } else if is_normal(components[0]) {
        seq![components[0]] + normal_only(components.drop_first())
    } else {
        normal_only(components.drop_first())
    }
}

/// Components with `separator` between them.
pub open spec fn separated(components: Seq<Seq<char>>, separator: char) -> Seq<char>
    decreases components.len(),
{
    if components.len() == 0 {
        seq![]
    } else if components.len() == 1 {
        components[0]
    } else {
        components[0] + seq![separator] + separated(components.drop_first(), separator)
    }
}

/// A path on disk: a directory, and parts to be joined to it one after the other.
#[derive(Debug)]
pub struct EntryPath {
    pub base: String,
    pub parts: Vec<String>,
}

/// What a path on disk is made of.
#[verifier::ext_equal]
pub struct EntryPathView {
    pub base: Seq<char>,
    pub parts: Seq<Seq<char>>,
}

impl View for EntryPath {
    type V = EntryPathView;

    open spec fn view(&self) -> EntryPathView {
        EntryPathView { base: self.base@, parts: string_views(self.parts@) }
    }
}

/// What the strings of a list hold.
pub open spec fn string_views(v: Seq<String>) -> Seq<Seq<char>> {
    v.map_values(|s: String| s@)
}

/// The directories that parts lead through, in order, if none of them names a parent.
pub open spec fn steps(style: PathStyle, parts: Seq<Seq<char>>) -> Seq<Seq<char>>
    decreases parts.len(),
{
    if parts.len() == 0 {
        seq![]
    } else {
        normal_components(style, parts[0]) + steps(style, parts.drop_first())
    }
}

/// Whether two paths lead from the same directory through the same directories.
pub open spec fn same_place(style: PathStyle, a: EntryPathView, b: EntryPathView) -> bool {
    a.base == b.base && steps(style, a.parts) == steps(style, b.parts)
}

/// Whether a character separates components.
fn separates(style: PathStyle, c: char) -> (r: bool)
    ensures
        r == is_separator(style, c),
{
    match style {
        PathStyle::Unix => c == '/',
        PathStyle::Windows => c == '/' || c == '\\',
    }
}

/// `path` with a slash for every separator.
fn as_slashed(style: PathStyle, path: &str) -> (r: String)
    ensures
        r@ == slashed(style, path@),
{
    let v = chars_of(path);
    let n: usize = v.len();
    let mut out = String::new();
    let ghost all = slashed(style, path@);
    for i in 0..n
        invariant
            n == v@.len(),
            v@ == path@,
            all == slashed(style, path@),
            out@ == all.take(i as int),
    {
        let c = v[i];
        if separates(style, c) {
            out.push('/');
        } else {
            out.push(c);
        }
        assert(all.take(i + 1) =~= all.take(i as int).push(all[i as int]));
    }
    assert(all.take(n as int) =~= all);
    out
}

/// The component as it is, if it names something.
pub fn component_to_string(component: &str) -> (r: Option<String>)
    ensures
        match r {
            Some(name) => is_normal(component@) && name@ == component@,
            None => !is_normal(component@),
        },
{
    if component.is_empty() || same_text(component, ".") || same_text(component, "..") {
        None
    } else {
        Some(component.to_string())
    }
}

/// The components of a path below some directory that name something, in order.
pub fn components(style: PathStyle, path: &str) -> (r: Vec<String>)
    ensures
        string_views(r@) == normal_components(style, path@),
{
    let text = as_slashed(style, path);
    let parts = split_at_each(text.as_str(), '/');
    let n: usize = parts.len();
    let mut found: Vec<String> = Vec::new();
    let ghost all = views(parts@);
    assert(all.skip(0) =~= all);
    for i in 0..n
        invariant
            n == parts@.len(),
            all == views(parts@),
            normal_only(all) =~= string_views(found@) + normal_only(all.skip(i as int)),
    {
        let ghost before = found@;
        assert(all.skip(i as int).drop_first() =~= all.skip(i + 1));
        assert(all.skip(i as int)[0] == parts@[i as int]@);
        if let Some(name) = component_to_string(parts[i]) {
            found.push(name);
            assert(string_views(found@) =~= string_views(before) + seq![parts@[i as int]@]);
        }
    }
    assert(all.skip(n as int) =~= seq![]);
    assert(string_views(found@) + normal_only(all.skip(n as int)) =~= string_views(found@));
    found
}

// ---------------------------------------------------------------------------
// Making names safe for the disk
// ---------------------------------------------------------------------------

/// Whether a character stays as it is in a file name: a letter or a digit of ASCII,
/// or one of `.-_`.
pub open spec fn is_plain(c: char) -> bool {
    ||| 'a' <= c <= 'z'
    ||| 'A' <= c <= 'Z'
    ||| '0' <= c <= '9'
    ||| c == '.'
    ||| c == '-'
    ||| c == '_'
}

/// `value` with an underscore in place of every character that may not stay.
pub open spec fn sanitized(value: Seq<char>) -> Seq<char> {
    value.map_values(
        |c: char|
            if is_plain(c) {
                c
            } else {
                '_'
            },
    )
}

/// Each of the given components, made safe.
pub open spec fn sanitized_each(components: Seq<Seq<char>>) -> Seq<Seq<char>> {
    components.map_values(|c: Seq<char>| sanitized(c))
}

/// `value` with an underscore in place of every character that may not stay.
pub fn sanitize_path_component(value: &str) -> (r: String)
    ensures
        r@ == sanitized(value@),
{
    let v = chars_of(value);
    let n: usize = v.len();
    let mut out = String::new();
    for i in 0..n
        invariant
            n == v@.len(),
            v@ == value@,
            out@ == sanitized(value@).take(i as int),
    {
        let c = v[i];
        if ('a' <= c && c <= 'z') || ('A' <= c && c <= 'Z') || ('0' <= c && c <= '9') || c == '.'
            || c == '-' || c == '_' {
            out.push(c);
        } else {
            out.push('_');
        }
        assert(sanitized(value@).take(i + 1) =~= sanitized(value@).take(i as int).push(
            sanitized(value@)[i as int],
        ));
    }
    assert(sanitized(value@).take(n as int) =~= sanitized(value@));
    out
}

/// The parts of the path `value`, which stand between its slashes, each made safe.
pub fn sanitize_slash_path(value: &str) -> (r: Vec<String>)
    ensures
        string_views(r@) == sanitized_each(pieces(value@, '/')),
{
    let parts = split_at_each(value, '/');
    let n: usize = parts.len();
    let mut safe: Vec<String> = Vec::new();
    let ghost all = sanitized_each(pieces(value@, '/'));
    for i in 0..n
        invariant
            n == parts@.len(),
            views(parts@) == pieces(value@, '/'),
            all == sanitized_each(pieces(value@, '/')),
            string_views(safe@) == all.take(i as int),
    {
        let ghost before = safe@;
        assert(all[i as int] == sanitized(parts@[i as int]@)) by {
            assert(views(parts@)[i as int] == parts@[i as int]@);
        }
        safe.push(sanitize_path_component(parts[i]));
        assert(string_views(safe@) =~= string_views(before).push(all[i as int]));
        assert(all.take(i + 1) =~= all.take(i as int).push(all[i as int]));
    }
    assert(all.take(n as int) =~= all);
    safe
}

// ---------------------------------------------------------------------------
// The place of an entry
// ---------------------------------------------------------------------------

/// The parts of an entry's path below the cache directory: the registry, the kind, the
/// repository and the reference.
pub open spec fn entry_components(
    host: Seq<char>,
    kind: Seq<char>,
    name: Seq<char>,
    reference: Seq<char>,
) -> Seq<Seq<char>> {
    (seq![sanitized(host), kind] + sanitized_each(pieces(name, '/'))).push(sanitized(reference))
}

/// Where the entry of a kind for `name` and `reference` from the registry `host` lies.
pub open spec fn entry_path(
    cache_dir: Seq<char>,
    host: Seq<char>,
    kind: Seq<char>,
    name: Seq<char>,
    reference: Seq<char>,
) -> EntryPathView {
    EntryPathView { base: cache_dir, parts: entry_components(host, kind, name, reference) }
}

/// Where the entry of a kind lies.
fn cache_path(cache_dir: &str, host: &DockerHost, kind: &str, name: &str, reference: &str) -> (r:
    EntryPath)
    ensures
        r@ == entry_path(cache_dir@, host.name@, kind@, name@, reference@),
{
    let mut parts: Vec<String> = Vec::new();
    parts.push(sanitize_path_component(host.name.as_str()));
    parts.push(kind.to_string());
    let ghost front = parts@;
    let mut names = sanitize_slash_path(name);
    let ghost middle = names@;
    parts.append(&mut names);
    assert(parts@ =~= front + middle);
    parts.push(sanitize_path_component(reference));
    assert(string_views(parts@) =~= entry_components(host.name@, kind@, name@, reference@)) by {
        assert(string_views(middle) == sanitized_each(pieces(name@, '/')));
        assert forall|i: int| 0 <= i < middle.len() implies middle[i]@ == sanitized_each(
            pieces(name@, '/'),
        )[i] by {
            assert(string_views(middle)[i] == middle[i]@);
        }
    }
    EntryPath { base: cache_dir.to_string(), parts }
}

/// Where a manifest lies.
pub fn cache_manifest_path(
    cache_dir: &str,
    host: &DockerHost,
    name: &str,
    reference: &str,
) -> (r: EntryPath)
    ensures
        r@ == entry_path(cache_dir@, host.name@, "manifests"@, name@, reference@),
{
    cache_path(cache_dir, host, "manifests", name, reference)
}

/// Where a blob lies.
pub fn cache_blob_path(cache_dir: &str, host: &DockerHost, name: &str, digest: &str) -> (r:
    EntryPath)
    ensures
        r@ == entry_path(cache_dir@, host.name@, "blobs"@, name@, digest@),
{
    cache_path(cache_dir, host, "blobs", name, digest)
}

/// Whether an id leads out of the cache directory: it begins with a separator or a drive,
/// or it has a component that names a parent directory.
pub open spec fn leads_out(style: PathStyle, id: Seq<char>) -> bool {
    ||| id.len() > 0 && is_separator(style, id[0])
    ||| has_drive(style, id)
    ||| path_pieces(style, id).contains(".."@)
}

/// The path of the entry with this id.
pub open spec fn id_path(cache_dir: Seq<char>, id: Seq<char>) -> EntryPathView {
    EntryPathView { base: cache_dir, parts: seq![id] }
}

/// Whether a path begins with a separator or a drive.
fn begins_anew(style: PathStyle, path: &str) -> (r: bool)
    ensures
        r == ((path@.len() > 0 && is_separator(style, path@[0])) || has_drive(style, path@)),
{
    let v = chars_of(path);
    if v.len() == 0 {
        return false;
    }
    let c = v[0];
    if separates(style, c) {
        return true;
    }
    match style {
        PathStyle::Unix => false,
        PathStyle::Windows => v.len() >= 2 && (('a' <= c && c <= 'z') || ('A' <= c && c <= 'Z'))
            && v[1] == ':',
    }
}

/// Where the entry with this id would lie, if the id does not lead out of the cache
/// directory.
pub fn cache_entry_path_from_id(style: PathStyle, cache_dir: &str, id: &str) -> (r: Option<
    EntryPath,
>)
    ensures
        match r {
            Some(path) => !leads_out(style, id@) && path@ == id_path(cache_dir@, id@),
            None => leads_out(style, id@),
        },
{
    if begins_anew(style, id) {
        return None;
    }
    let text = as_slashed(style, id);
    let parts = split_at_each(text.as_str(), '/');
    let n: usize = parts.len();
    let ghost all = path_pieces(style, id@);
    for i in 0..n
        invariant
            n == parts@.len(),
            all == path_pieces(style, id@),
            all == views(parts@),
            forall|j: int| 0 <= j < i ==> all[j] != ".."@,
    {
        assert(all[i as int] == parts@[i as int]@);
        if same_text(parts[i], "..") {
            return None;
        }
    }
    let mut below: Vec<String> = Vec::new();
    below.push(id.to_string());
    assert(string_views(below@) =~= seq![id@]);
    Some(EntryPath { base: cache_dir.to_string(), parts: below })
}

// ---------------------------------------------------------------------------
// Laws
// ---------------------------------------------------------------------------

/// A safe name is as long as the name it stands for, holds plain characters only, and
/// is its own safe name; plain characters stay where they are.
pub proof fn law_sanitized(value: Seq<char>)
    ensures
        sanitized(value).len() == value.len(),
        forall|i: int| 0 <= i < value.len() ==> is_plain(#[trigger] sanitized(value)[i]),
        forall|i: int|
            0 <= i < value.len() && is_plain(value[i]) ==> #[trigger] sanitized(value)[i]
                == value[i],
        sanitized(sanitized(value)) == sanitized(value),
        !sanitized(value).contains('/'),
        is_normal(sanitized(value)) == is_normal(value),
{
    assert(sanitized(sanitized(value)) =~= sanitized(value));
    reveal_strlit(".");
    reveal_strlit("..");
    let safe = sanitized(value);
    if safe == "."@ {
        assert(value[0] == safe[0]);
        assert(value =~= "."@);
    }
    if safe == ".."@ {
        assert(value[0] == safe[0]);
        assert(value[1] == safe[1]);
        assert(value =~= ".."@);
    }
    if value == "."@ {
        assert(safe[0] == value[0]);
        assert(safe =~= "."@);
    }
    if value == ".."@ {
        assert(safe[0] == value[0] && safe[1] == value[1]);
        assert(safe =~= ".."@);
    }
}

/// Whether a name can stand for a file anywhere: it names something, and holds plain
/// characters only.
pub open spec fn is_plain_name(name: Seq<char>) -> bool {
    is_normal(name) && forall|i: int| 0 <= i < name.len() ==> is_plain(#[trigger] name[i])
}

/// Whether each of some names can stand for a file anywhere.
pub open spec fn are_plain_names(names: Seq<Seq<char>>) -> bool {
    forall|i: int| 0 <= i < names.len() ==> is_plain_name(#[trigger] names[i])
}

/// A name of plain characters has no separator in it.
proof fn lemma_plain_name(style: PathStyle, name: Seq<char>)
    requires
        is_plain_name(name),
    ensures
        slashed(style, name) == name,
        !name.contains('/'),
        path_pieces(style, name) == seq![name],
        normal_components(style, name) == seq![name],
{
    assert(slashed(style, name) =~= name);
    assert(path_pieces(style, name) =~= seq![name]);
    reveal_with_fuel(normal_only, 2);
    assert(seq![name].drop_first() =~= seq![]);
    assert(normal_only(seq![name]) =~= seq![name]);
}

/// Separators between plain names are where they are split again.
proof fn lemma_pieces_of_separated(style: PathStyle, names: Seq<Seq<char>>)
    requires
        names.len() > 0,
        are_plain_names(names),
    ensures
        path_pieces(style, separated(names, main_separator(style))) == names,
        separated(names, main_separator(style)).len() > 0,
        !is_separator(style, separated(names, main_separator(style))[0]),
        !has_drive(style, separated(names, main_separator(style))),
    decreases names.len(),
{
    let c = main_separator(style);
    let first = names[0];
    assert(is_plain_name(first));
    lemma_plain_name(style, first);
    assert(is_plain(first[0]));
    if names.len() == 1 {
        assert(names =~= seq![first]);
        if first.len() >= 2 {
            assert(is_plain(first[1]));
        }
    } else {
        let tail = names.drop_first();
        assert forall|i: int| 0 <= i < tail.len() implies is_plain_name(#[trigger] tail[i]) by {
            assert(tail[i] == names[i + 1]);
        }
        lemma_pieces_of_separated(style, tail);
        let rest = separated(tail, c);
        let whole = first + seq![c] + rest;
        assert(slashed(style, whole) =~= first + seq!['/'] + slashed(style, rest));
        lemma_split_once_char_of(first, '/', slashed(style, rest));
        assert(path_pieces(style, whole) == seq![first] + path_pieces(style, rest));
        assert(seq![first] + tail =~= names);
        assert(whole[0] == first[0]);
        if first.len() >= 2 {
            assert(is_plain(first[1]));
            assert(whole[1] == first[1]);
        } else {
            assert(whole[1] == c);
        }
    }
}

/// Names that name something are all kept.
proof fn lemma_normal_only_keeps(names: Seq<Seq<char>>)
    requires
        are_plain_names(names),
    ensures
        normal_only(names) == names,
    decreases names.len(),
{
    if names.len() > 0 {
        let tail = names.drop_first();
        assert forall|i: int| 0 <= i < tail.len() implies is_plain_name(#[trigger] tail[i]) by {
            assert(tail[i] == names[i + 1]);
        }
        assert(is_plain_name(names[0]));
        lemma_normal_only_keeps(tail);
        assert(seq![names[0]] + tail =~= names);
    } else {
        assert(names =~= seq![]);
    }
}

/// Parts that are plain names are the directories that they lead through.
proof fn lemma_steps_of_plain_names(style: PathStyle, names: Seq<Seq<char>>)
    requires
        are_plain_names(names),
    ensures
        steps(style, names) == names,
    decreases names.len(),
{
    if names.len() > 0 {
        let tail = names.drop_first();
        assert forall|i: int| 0 <= i < tail.len() implies is_plain_name(#[trigger] tail[i]) by {
            assert(tail[i] == names[i + 1]);
        }
        assert(is_plain_name(names[0]));
        lemma_plain_name(style, names[0]);
        lemma_steps_of_plain_names(style, tail);
        assert(seq![names[0]] + tail =~= names);
    } else {
        assert(names =~= seq![]);
    }
}

/// Whether the parts of an entry's place each name something: its registry, its kind,
/// the components of its repository and its reference.
pub open spec fn is_nameable(
    host: Seq<char>,
    kind: Seq<char>,
    name: Seq<char>,
    reference: Seq<char>,
) -> bool {
    &&& is_normal(host)
    &&& is_plain_name(kind)
    &&& forall|i: int|
        0 <= i < pieces(name, '/').len() ==> is_normal(#[trigger] pieces(name, '/')[i])
    &&& is_normal(reference)
}

/// A safe name that names something is a plain name.
proof fn lemma_sanitized_is_plain(value: Seq<char>)
    requires
        is_normal(value),
    ensures
        is_plain_name(sanitized(value)),
{
    law_sanitized(value);
}

/// The parts of a nameable entry's path are plain names.
pub proof fn lemma_entry_components(
    host: Seq<char>,
    kind: Seq<char>,
    name: Seq<char>,
    reference: Seq<char>,
)
    requires
        is_nameable(host, kind, name, reference),
    ensures
        are_plain_names(entry_components(host, kind, name, reference)),
        entry_components(host, kind, name, reference).len() >= 4,
{
    let names = sanitized_each(pieces(name, '/'));
    let components = entry_components(host, kind, name, reference);
    lemma_sanitized_is_plain(host);
    lemma_sanitized_is_plain(reference);
    assert forall|i: int| 0 <= i < components.len() implies is_plain_name(
        #[trigger] components[i],
    ) by {
        if 2 <= i < components.len() - 1 {
            assert(is_normal(pieces(name, '/')[i - 2]));
            lemma_sanitized_is_plain(pieces(name, '/')[i - 2]);
            assert(components[i] == names[i - 2]);
        }
    }
}

/// The id of an entry, as the machine writes its path below the cache directory.
pub open spec fn entry_id(
    style: PathStyle,
    host: Seq<char>,
    kind: Seq<char>,
    name: Seq<char>,
    reference: Seq<char>,
) -> Seq<char> {
    separated(entry_components(host, kind, name, reference), main_separator(style))
}

/// An entry whose registry, repository and reference name something lies below the
/// cache directory, as many directories deep as its path has parts; and its id leads to
/// the same place, and not out of the cache directory.
pub proof fn law_entry_lies_in_cache(
    style: PathStyle,
    cache_dir: Seq<char>,
    host: Seq<char>,
    kind: Seq<char>,
    name: Seq<char>,
    reference: Seq<char>,
)
    requires
        is_nameable(host, kind, name, reference),
    ensures
        ({
            let path = entry_path(cache_dir, host, kind, name, reference);
            let id = entry_id(style, host, kind, name, reference);
            &&& steps(style, path.parts) == path.parts
            &&& normal_components(style, id) == path.parts
            &&& same_place(style, id_path(cache_dir, id), path)
            &&& !leads_out(style, id)
        }),
{
    let components = entry_components(host, kind, name, reference);
    let id = entry_id(style, host, kind, name, reference);
    lemma_entry_components(host, kind, name, reference);
    lemma_pieces_of_separated(style, components);
    lemma_normal_only_keeps(components);
    lemma_steps_of_plain_names(style, components);
    reveal_with_fuel(steps, 2);
    assert(seq![id].drop_first() =~= seq![]);
    assert(steps(style, seq![id]) =~= normal_components(style, id));
    if components.contains(".."@) {
        let k = components.index_of(".."@);
        assert(is_plain_name(components[k]));
    }
}

/// Two entries lie at the same place only if their registries, kinds, repositories and
/// references are alike, but for characters that may not stay; so what is stored for
/// one is never taken for another whose names, of characters that may stay, differ.
pub proof fn law_entries_lie_apart(
    style: PathStyle,
    cache_dir: Seq<char>,
    host: Seq<char>,
    kind: Seq<char>,
    name: Seq<char>,
    reference: Seq<char>,
    other_host: Seq<char>,
    other_kind: Seq<char>,
    other_name: Seq<char>,
    other_reference: Seq<char>,
)
    requires
        is_nameable(host, kind, name, reference),
        is_nameable(other_host, other_kind, other_name, other_reference),
        same_place(
            style,
            entry_path(cache_dir, host, kind, name, reference),
            entry_path(cache_dir, other_host, other_kind, other_name, other_reference),
        ),
    ensures
        sanitized(host) == sanitized(other_host),
        kind == other_kind,
        sanitized_each(pieces(name, '/')) == sanitized_each(pieces(other_name, '/')),
        sanitized(reference) == sanitized(other_reference),
{
    let a = entry_components(host, kind, name, reference);
    let b = entry_components(other_host, other_kind, other_name, other_reference);
    lemma_entry_components(host, kind, name, reference);
    lemma_entry_components(other_host, other_kind, other_name, other_reference);
    lemma_steps_of_plain_names(style, a);
    lemma_steps_of_plain_names(style, b);
    let names = sanitized_each(pieces(name, '/'));
    let others = sanitized_each(pieces(other_name, '/'));
    assert(a.len() == names.len() + 3 && b.len() == others.len() + 3);
    assert(a[0] == b[0] && a[1] == b[1] && a.last() == b.last());
    assert(names =~= a.subrange(2, a.len() - 1));
    assert(others =~= b.subrange(2, b.len() - 1));
}

/// A manifest and a blob of a registry never have the same path, whatever their names.
pub proof fn law_kinds_lie_apart(
    cache_dir: Seq<char>,
    host: Seq<char>,
    name: Seq<char>,
    reference: Seq<char>,
    other_name: Seq<char>,
    digest: Seq<char>,
)
    ensures
        entry_path(cache_dir, host, "manifests"@, name, reference) != entry_path(
            cache_dir,
            host,
            "blobs"@,
            other_name,
            digest,
        ),
{
    reveal_strlit("manifests");
    reveal_strlit("blobs");
    assert(entry_components(host, "manifests"@, name, reference)[1].len() == 9);
    assert(entry_components(host, "blobs"@, other_name, digest)[1].len() == 5);
}

/// An id that does not lead out of the cache directory leads only downwards: no component
/// of it names a parent directory, and it begins with no separator and no drive.
pub proof fn law_ids_lead_downwards(style: PathStyle, id: Seq<char>)
    requires
        !leads_out(style, id),
    ensures
        forall|i: int|
            0 <= i < path_pieces(style, id).len() ==> #[trigger] path_pieces(style, id)[i] != ".."@,
        id.len() > 0 ==> !is_separator(style, id[0]),
        !has_drive(style, id),
{
    assert forall|i: int| 0 <= i < path_pieces(style, id).len() implies #[trigger] path_pieces(
        style,
        id,
    )[i] != ".."@ by {
        if path_pieces(style, id)[i] == ".."@ {
            assert(path_pieces(style, id).contains(".."@));
        }
    }
}

/// In a safe name letters and digits of ASCII, dots, dashes and underscores stay as they
/// are, each at its place, and an underscore stands in place of anything else.
pub proof fn law_safe_name_by_characters(value: Seq<char>)
    ensures
        sanitized(value).len() == value.len(),
        forall|i: int|
            0 <= i < value.len() ==> #[trigger] sanitized(value)[i] == (if 'a' <= value[i] <= 'z'
                || 'A' <= value[i] <= 'Z' || '0' <= value[i] <= '9' || value[i] == '.' || value[i]
                == '-' {
                value[i]
            } else {
                '_'
            }),
        forall|c: char|
            #[trigger] is_plain(c) <==> 'a' <= c <= 'z' || 'A' <= c <= 'Z' || '0' <= c <= '9' || c
                == '.' || c == '-' || c == '_',
{
}

/// The entry for a repository and a reference lies below the cache directory under the name
/// of the registry, then the kind, then each component of the repository's name in order,
/// then the whole reference, all but the kind made safe.
pub proof fn law_entry_path_by_parts(
    cache_dir: Seq<char>,
    host: Seq<char>,
    kind: Seq<char>,
    name: Seq<char>,
    reference: Seq<char>,
)
    ensures
        ({
            let path = entry_path(cache_dir, host, kind, name, reference);
            let names = pieces(name, '/');
            &&& path.base == cache_dir
            &&& path.parts.len() == names.len() + 3
            &&& path.parts[0] == sanitized(host)
            &&& path.parts[1] == kind
            &&& forall|i: int|
                0 <= i < names.len() ==> #[trigger] path.parts[i + 2] == sanitized(names[i])
            &&& path.parts.last() == sanitized(reference)
        }),
{
}

/// Two entries with the same path are of the same kind, and the names of their registries,
/// the components of their repositories and their references are equally long and alike in
/// every letter and digit, every dot and every dash.
pub proof fn law_shared_path_means_like_names(
    cache_dir: Seq<char>,
    host: Seq<char>,
    kind: Seq<char>,
    name: Seq<char>,
    reference: Seq<char>,
    other_host: Seq<char>,
    other_kind: Seq<char>,
    other_name: Seq<char>,
    other_reference: Seq<char>,
)
    requires
        entry_path(cache_dir, host, kind, name, reference) == entry_path(
            cache_dir,
            other_host,
            other_kind,
            other_name,
            other_reference,
        ),
    ensures
        kind == other_kind,
        alike(host, other_host),
        alike(reference, other_reference),
        pieces(name, '/').len() == pieces(other_name, '/').len(),
        forall|i: int|
            0 <= i < pieces(name, '/').len() ==> alike(
                #[trigger] pieces(name, '/')[i],
                pieces(other_name, '/')[i],
            ),
        reference.len() == other_reference.len(),
        forall|i: int|
            0 <= i < reference.len() && ('a' <= #[trigger] reference[i] <= 'z' || 'A'
                <= reference[i] <= 'Z' || '0' <= reference[i] <= '9' || reference[i] == '.'
                || reference[i] == '-') ==> reference[i] == other_reference[i],
{
    let a = entry_path(cache_dir, host, kind, name, reference).parts;
    let names = pieces(name, '/');
    let others = pieces(other_name, '/');
    law_entry_path_by_parts(cache_dir, host, kind, name, reference);
    law_entry_path_by_parts(cache_dir, other_host, other_kind, other_name, other_reference);
    lemma_alike(host, other_host);
    lemma_alike(reference, other_reference);
    assert forall|i: int| 0 <= i < names.len() implies alike(#[trigger] names[i], others[i]) by {
        assert(a[i + 2] == sanitized(names[i]));
        assert(a[i + 2] == sanitized(others[i]));
        lemma_alike(names[i], others[i]);
    }
}

/// Whether two names are equally long and alike in every letter and digit, every dot and
/// every dash of either.
pub open spec fn alike(a: Seq<char>, b: Seq<char>) -> bool {
    &&& a.len() == b.len()
    &&& forall|i: int|
        0 <= i < a.len() && is_plain(#[trigger] a[i]) && a[i] != '_' ==> a[i] == b[i]
    &&& forall|i: int|
        0 <= i < b.len() && is_plain(#[trigger] b[i]) && b[i] != '_' ==> a[i] == b[i]
}

/// Names with the same safe name are alike.
proof fn lemma_alike(a: Seq<char>, b: Seq<char>)
    requires
        sanitized(a) == sanitized(b),
    ensures
        alike(a, b),
{
    let safe = sanitized(a);
    assert(a.len() == safe.len() && b.len() == safe.len());
    assert forall|i: int| 0 <= i < a.len() && is_plain(#[trigger] a[i]) && a[i] != '_' implies a[i]
        == b[i] by {
        assert(safe[i] == a[i]);
        assert(sanitized(b)[i] == a[i]);
    }
    assert forall|i: int| 0 <= i < b.len() && is_plain(#[trigger] b[i]) && b[i] != '_' implies a[i]
        == b[i] by {
        assert(sanitized(b)[i] == b[i]);
        assert(safe[i] == b[i]);
    }
}

/// The id of an entry is the parts of its path, in order, with a slash between each two, or
/// on Windows a backslash.
pub proof fn law_id_of_an_entry(
    host: Seq<char>,
    kind: Seq<char>,
    name: Seq<char>,
    reference: Seq<char>,
    first: Seq<char>,
    rest: Seq<Seq<char>>,
    separator: char,
)
    requires
        rest.len() > 0,
    ensures
        ({
            let parts = entry_path(seq![], host, kind, name, reference).parts;
            &&& entry_id(PathStyle::Unix, host, kind, name, reference) == separated(parts, '/')
            &&& entry_id(PathStyle::Windows, host, kind, name, reference) == separated(
                parts,
                '\\',
            )
        }),
        separated(seq![], separator) == Seq::<char>::empty(),
        separated(seq![first], separator) == first,
        separated(seq![first] + rest, separator) == first + seq![separator] + separated(
            rest,
            separator,
        ),
{
    assert((seq![first] + rest).drop_first() =~= rest);
}

/// The components of a path that name something are those between its slashes, or on
/// Windows its slashes and backslashes, in order, without the empty ones and those that name
/// the directory itself or its parent.
pub proof fn law_normal_components(path: Seq<char>)
    ensures
        normal_components(PathStyle::Unix, path) == pieces(path, '/').filter(
            |c: Seq<char>| c.len() > 0 && c != "."@ && c != ".."@,
        ),
        normal_components(PathStyle::Windows, path) == pieces(
            Seq::new(
                path.len(),
                |i: int|
                    if path[i] == '\\' {
                        '/'
                    } else {
                        path[i]
                    },
            ),
            '/',
        ).filter(|c: Seq<char>| c.len() > 0 && c != "."@ && c != ".."@),
{
    assert(slashed(PathStyle::Unix, path) =~= path);
    assert(slashed(PathStyle::Windows, path) =~= Seq::new(
        path.len(),
        |i: int|
            if path[i] == '\\' {
                '/'
            } else {
                path[i]
            },
    ));
    lemma_normal_only(path_pieces(PathStyle::Unix, path));
    lemma_normal_only(path_pieces(PathStyle::Windows, path));
}

/// What is left of components without those that name nothing.
proof fn lemma_normal_only(components: Seq<Seq<char>>)
    ensures
        normal_only(components) == components.filter(
            |c: Seq<char>| c.len() > 0 && c != "."@ && c != ".."@,
        ),
    decreases components.len(),
{
    let keep = |c: Seq<char>| c.len() > 0 && c != "."@ && c != ".."@;
    reveal_with_fuel(Seq::filter, 2);
    if components.len() > 0 {
        let one = seq![components[0]];
        let rest = components.drop_first();
        lemma_normal_only(rest);
        assert(components =~= one + rest);
        Seq::filter_distributes_over_add(one, rest, keep);
        assert(one.drop_last() =~= seq![]);
        assert(one.filter(keep) =~= if keep(components[0]) {
            one
        } else {
            seq![]
        });
        assert(normal_only(components) =~= components.filter(keep));
    }
}

/// An id leads out of the cache directory exactly if it begins with a slash or one of its
/// components between slashes is `..`; on Windows a backslash counts as a slash, and an id
/// that begins with a letter and a colon leads out too. Any other id is followed below the
/// cache directory as it is.
pub proof fn law_ids_that_lead_out(id: Seq<char>, cache_dir: Seq<char>)
    ensures
        leads_out(PathStyle::Unix, id) <==> {
            ||| id.len() > 0 && id[0] == '/'
            ||| pieces(id, '/').contains(".."@)
        },
        leads_out(PathStyle::Windows, id) <==> {
            ||| id.len() > 0 && (id[0] == '/' || id[0] == '\\')
            ||| id.len() > 1 && ('a' <= id[0] <= 'z' || 'A' <= id[0] <= 'Z') && id[1] == ':'
            ||| pieces(
                Seq::new(
                    id.len(),
                    |i: int|
                        if id[i] == '\\' {
                            '/'
                        } else {
                            id[i]
                        },
                ),
                '/',
            ).contains(".."@)
        },
        id_path(cache_dir, id).base == cache_dir,
        id_path(cache_dir, id).parts == seq![id],
{
    assert(slashed(PathStyle::Unix, id) =~= id);
    assert(slashed(PathStyle::Windows, id) =~= Seq::new(
        id.len(),
        |i: int|
            if id[i] == '\\' {
                '/'
            } else {
                id[i]
            },
    ));
}

/// What is seen of a path is its directory and each of its parts, in order.
pub proof fn law_path_is_seen_whole(path: EntryPath, i: int)
    requires
        0 <= i < path.parts@.len(),
    ensures
        path@.base == path.base@,
        path@.parts.len() == path.parts@.len(),
        path@.parts[i] == path.parts@[i]@,
{
}

} // verus!
