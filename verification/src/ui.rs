//! The page that lists the cache, and what comes of its buttons.

use vstd::prelude::*;

use crate::encoding::{
    escape_html, html_escaped, law_encoded_param, law_url_round_trip, path_query_value,
    query_value, url_decode, url_decoded, url_encode, url_encoded,
};
use crate::format::{duration_text, format_bytes, format_duration, size_text};
use crate::listing::{entry_at, law_stored_entry_is_listed, CacheEntry};
use crate::paths::{
    cache_entry_path_from_id, entry_id, entry_path, id_path, is_nameable, law_entry_lies_in_cache,
    leads_out, normal_components, same_place, steps, EntryPath, EntryPathView, PathStyle,
};
use crate::request::{route_of, RouteView};
use crate::response::{
    html_response, redirect_response, text_response, write_html_response, write_redirect_response,
    write_text_response,
};
use crate::text::{decimal, decimal_text};

verus! {

// ---------------------------------------------------------------------------
// The page
// ---------------------------------------------------------------------------

/// A cell of the table, with what it holds as it is.
pub open spec fn cell(content: Seq<char>) -> Seq<char> {
    "<td>"@ + content + "</td>"@
}

/// A cell of the table that holds a name.
pub open spec fn code_cell(content: Seq<char>) -> Seq<char> {
    "<td><code>"@ + content + "</code></td>"@
}

/// The button that deletes an entry.
pub open spec fn delete_button(id: Seq<char>) -> Seq<char> {
    "<form method=\"post\" action=\"/ui/delete?id="@ + url_encoded(id)
        + "\"><button type=\"submit\">Delete</button></form>"@
}

/// When an entry is deleted.
pub open spec fn time_left(entry: CacheEntry) -> Seq<char> {
    if entry.expires {
        duration_text(entry.ttl_remaining_secs as nat)
    } else {
        "now"@
    }
}

/// The row of an entry.
pub open spec fn row(entry: CacheEntry) -> Seq<char> {
    "<tr>"@ + cell(html_escaped(entry.host@)) + cell(html_escaped(entry.kind@)) + code_cell(
        html_escaped(entry.repository@),
    ) + code_cell(html_escaped(entry.reference@)) + cell(size_text(entry.size as nat)) + cell(
        duration_text(entry.age_secs as nat),
    ) + cell(time_left(entry)) + "<td>"@ + delete_button(entry.id@) + "</td></tr>"@
}

/// The rows of entries.
pub open spec fn rows(entries: Seq<CacheEntry>) -> Seq<char>
    decreases entries.len(),
{
    if entries.len() == 0 {
        seq![]
    } else {
        row(entries[0]) + rows(entries.drop_first())
    }
}

/// The size of all entries together.
pub open spec fn size_of_all(entries: Seq<CacheEntry>) -> nat
    decreases entries.len(),
{
    if entries.len() == 0 {
        0
    } else {
        entries[0].size as nat + size_of_all(entries.drop_first())
    }
}

/// What stands above the table.
pub open spec fn page_head(count: nat, size: nat, ttl: nat) -> Seq<char> {
    "<!doctype html><html><head><meta charset=\"utf-8\"><title>dockerproxy cache</title>"@
        + "<style>body{font-family:system-ui,sans-serif;margin:2rem;}table{border-collapse:collapse;width:100%;}th,td{border-bottom:1px solid #ddd;padding:.5rem;text-align:left;}th{background:#f6f6f6;}code{font-family:ui-monospace,monospace;}button{cursor:pointer;} .muted{color:#666;}</style>"@
        + "</head><body><h1>dockerproxy cache</h1>"@ + "<p class=\"muted\">"@ + decimal(count)
        + " entries, "@ + size_text(size) + ", ttl "@ + duration_text(ttl) + "</p>"@
}

/// The page that lists entries.
pub open spec fn page(entries: Seq<CacheEntry>, ttl: nat) -> Seq<char> {
    page_head(entries.len(), size_of_all(entries), ttl)
        + "<table><thead><tr><th>Host</th><th>Type</th><th>Repository</th><th>Reference</th><th>Size</th><th>Age</th><th>Deletes In</th><th></th></tr></thead><tbody>"@
        + rows(entries) + "</tbody></table></body></html>"@
}

/// The size of all entries together, if it can be counted.
pub fn total_size(entries: &Vec<CacheEntry>) -> (r: Option<u64>)
    ensures
        match r {
            Some(size) => size == size_of_all(entries@),
            None => size_of_all(entries@) > u64::MAX,
        },
{
    let n: usize = entries.len();
    let mut sum: u64 = 0;
    assert(entries@.skip(0) =~= entries@);
    for i in 0..n
        invariant
            n == entries@.len(),
            size_of_all(entries@) == sum + size_of_all(entries@.skip(i as int)),
    {
        assert(entries@.skip(i as int).drop_first() =~= entries@.skip(i + 1));
        assert(size_of_all(entries@.skip(i as int)) == entries@[i as int].size + size_of_all(
            entries@.skip(i + 1),
        ));
        match sum.checked_add(entries[i].size) {
            Some(more) => {
                sum = more;
            },
            None => {
                return None;
            },
        }
    }
    Some(sum)
}

/// A cell of the table, with what it holds as it is.
fn put_cell(html: &mut String, content: &str)
    ensures
        final(html)@ == old(html)@ + cell(content@),
{
    let ghost before = html@;
    html.append("<td>");
    html.append(content);
    html.append("</td>");
    assert(html@ =~= before + cell(content@));
}

/// A cell of the table that holds a name.
fn put_code_cell(html: &mut String, content: &str)
    ensures
        final(html)@ == old(html)@ + code_cell(content@),
{
    let ghost before = html@;
    html.append("<td><code>");
    html.append(content);
    html.append("</code></td>");
    assert(html@ =~= before + code_cell(content@));
}

/// The row of an entry.
fn put_row(html: &mut String, entry: &CacheEntry)
    ensures
        final(html)@ == old(html)@ + row(*entry),
{
    let ghost before = html@;
    html.append("<tr>");
    put_cell(html, escape_html(entry.host.as_str()).as_str());
    put_cell(html, escape_html(entry.kind.as_str()).as_str());
    put_code_cell(html, escape_html(entry.repository.as_str()).as_str());
    put_code_cell(html, escape_html(entry.reference.as_str()).as_str());
    put_cell(html, format_bytes(entry.size).as_str());
    put_cell(html, format_duration(entry.age_secs).as_str());
    let left = if entry.expires {
        format_duration(entry.ttl_remaining_secs)
    } else {
        "now".to_string()
    };
    put_cell(html, left.as_str());
    html.append("<td>");
    let ghost cells = html@;
    html.append("<form method=\"post\" action=\"/ui/delete?id=");
    html.append(url_encode(entry.id.as_str()).as_str());
    html.append("\"><button type=\"submit\">Delete</button></form>");
    assert(html@ =~= cells + delete_button(entry.id@));
    html.append("</td></tr>");
    assert(html@ =~= before + row(*entry));
}

/// Writes the page that lists entries, in the order given.
pub fn write_ui_response(out: &mut Vec<u8>, entries: &Vec<CacheEntry>, ttl: u64)
    requires
        size_of_all(entries@) <= u64::MAX,
    ensures
        final(out)@ == old(out)@ + html_response("200 OK"@, page(entries@, ttl as nat)),
{
    let size: u64 = match total_size(entries) {
        Some(size) => size,
        None => 0,
    };
    let n: usize = entries.len();
    let mut html = String::new();
    html.append(
        "<!doctype html><html><head><meta charset=\"utf-8\"><title>dockerproxy cache</title>",
    );
    html.append("<style>body{font-family:system-ui,sans-serif;margin:2rem;}table{border-collapse:collapse;width:100%;}th,td{border-bottom:1px solid #ddd;padding:.5rem;text-align:left;}th{background:#f6f6f6;}code{font-family:ui-monospace,monospace;}button{cursor:pointer;} .muted{color:#666;}</style>");
    html.append("</head><body><h1>dockerproxy cache</h1>");
    html.append("<p class=\"muted\">");
    html.append(decimal_text(n as u64).as_str());
    html.append(" entries, ");
    html.append(format_bytes(size).as_str());
    html.append(", ttl ");
    html.append(format_duration(ttl).as_str());
    html.append("</p>");
    assert(html@ =~= page_head(n as nat, size as nat, ttl as nat));
    html.append("<table><thead><tr><th>Host</th><th>Type</th><th>Repository</th><th>Reference</th><th>Size</th><th>Age</th><th>Deletes In</th><th></th></tr></thead><tbody>");
    let ghost above = html@;
    assert(entries@.skip(0) =~= entries@);
    assert(above + rows(entries@) =~= html@ + rows(entries@.skip(0)));
    for i in 0..n
        invariant
            n == entries@.len(),
            above + rows(entries@) == html@ + rows(entries@.skip(i as int)),
    {
        let ghost before = html@;
        assert(entries@.skip(i as int).drop_first() =~= entries@.skip(i + 1));
        put_row(&mut html, &entries[i]);
        assert(html@ + rows(entries@.skip(i + 1)) =~= before + (row(entries@[i as int]) + rows(
            entries@.skip(i + 1),
        )));
    }
    assert(entries@.skip(n as int).len() == 0);
    assert(html@ =~= above + rows(entries@));
    html.append("</tbody></table></body></html>");
    write_html_response(out, "200 OK", html.as_str());
}

// ---------------------------------------------------------------------------
// The buttons
// ---------------------------------------------------------------------------

/// What is done about a request to delete an entry.
pub enum DeletePlan {
    /// This is sent.
    Respond(Vec<u8>),
    /// It is looked whether there is an entry here.
    Look { entry_path: EntryPath },
}

/// What is done about a request to delete an entry.
pub enum DeletePlanView {
    Respond(Seq<u8>),
    Look { entry_path: EntryPathView },
}

impl View for DeletePlan {
    type V = DeletePlanView;

    open spec fn view(&self) -> DeletePlanView {
        match self {
            DeletePlan::Respond(bytes) => DeletePlanView::Respond(bytes@),
            DeletePlan::Look { entry_path } => DeletePlanView::Look { entry_path: entry_path@ },
        }
    }
}

/// The id of the entry that a request is to delete, if it gives one.
pub open spec fn deleted_id(path: Seq<char>) -> Option<Seq<char>> {
    match path_query_value(path, "id"@) {
        Some(value) => url_decoded(value),
        None => None,
    }
}

/// The answer to an id of something that is no entry.
pub open spec fn invalid_id() -> Seq<u8> {
    text_response("400 Bad Request"@, "invalid id\n"@)
}

/// What is done about a request to delete an entry: one without an id is refused, and
/// so is an id that leads out of the cache directory.
pub open spec fn delete_plan(
    style: PathStyle,
    cache_dir: Seq<char>,
    path: Seq<char>,
) -> DeletePlanView {
    match deleted_id(path) {
        None => DeletePlanView::Respond(text_response("400 Bad Request"@, "missing id\n"@)),
        Some(id) => if leads_out(style, id) {
            DeletePlanView::Respond(invalid_id())
        } else {
            DeletePlanView::Look { entry_path: id_path(cache_dir, id) }
        },
    }
}

/// What comes of a request to delete an entry, when it was looked whether there is one:
/// what is answered, and what is removed before that.
pub struct Deletion {
    pub response: Vec<u8>,
    pub remove: Option<EntryPath>,
}

/// What comes of a request to delete an entry.
pub struct DeletionView {
    pub response: Seq<u8>,
    pub remove: Option<EntryPathView>,
}

impl View for Deletion {
    type V = DeletionView;

    open spec fn view(&self) -> DeletionView {
        DeletionView {
            response: self.response@,
            remove: match self.remove {
                Some(path) => Some(path@),
                None => None,
            },
        }
    }
}

/// What comes of a request to delete what lies at a path: an entry is removed and the
/// client sent back to the page, anything else is refused.
pub open spec fn deletion(path: EntryPathView, is_entry: bool) -> DeletionView {
    if is_entry {
        DeletionView { response: redirect_response("/ui"@), remove: Some(path) }
    } else {
        DeletionView { response: invalid_id(), remove: None }
    }
}

/// A refusal with the given reason.
fn refusal(reason: &str) -> (r: Vec<u8>)
    ensures
        r@ == text_response("400 Bad Request"@, reason@),
{
    let mut out: Vec<u8> = Vec::new();
    write_text_response(&mut out, "400 Bad Request", reason);
    assert(out@ =~= text_response("400 Bad Request"@, reason@));
    out
}

/// What is done about a request to delete an entry.
pub fn handle_ui_delete(style: PathStyle, cache_dir: &str, path: &str) -> (r: DeletePlan)
    ensures
        r@ == delete_plan(style, cache_dir@, path@),
{
    let id = match query_value(path, "id") {
        Some(value) => url_decode(value.as_str()),
        None => None,
    };
    match id {
        None => DeletePlan::Respond(refusal("missing id\n")),
        Some(id) => match cache_entry_path_from_id(style, cache_dir, id.as_str()) {
            Some(entry_path) => DeletePlan::Look { entry_path },
            None => DeletePlan::Respond(refusal("invalid id\n")),
        },
    }
}

/// What comes of a request to delete what lies at a path, when it was looked whether
/// that is an entry.
pub fn delete_cache_entry(entry_path: EntryPath, is_entry: bool) -> (r: Deletion)
    ensures
        r@ == deletion(entry_path@, is_entry),
{
    if is_entry {
        let mut out: Vec<u8> = Vec::new();
        write_redirect_response(&mut out, "/ui");
        assert(out@ =~= redirect_response("/ui"@));
        Deletion { response: out, remove: Some(entry_path) }
    } else {
        Deletion { response: refusal("invalid id\n"), remove: None }
    }
}

// ---------------------------------------------------------------------------
// Laws
// ---------------------------------------------------------------------------

/// Where the button of an entry leads.
pub open spec fn delete_link(id: Seq<char>) -> Seq<char> {
    "/ui/delete?id="@ + url_encoded(id)
}

/// The button of an entry asks for the deletion of that entry, whatever its id.
pub proof fn law_button_deletes_its_entry(style: PathStyle, cache_dir: Seq<char>, id: Seq<char>)
    ensures
        route_of("POST"@, delete_link(id)) == (RouteView::Delete { path: delete_link(id) }),
        deleted_id(delete_link(id)) == Some(id),
        !leads_out(style, id) ==> delete_plan(style, cache_dir, delete_link(id))
            == (DeletePlanView::Look { entry_path: id_path(cache_dir, id) }),
{
    reveal_strlit("/ui/delete?id=");
    reveal_strlit("/ui/delete");
    reveal_strlit("id");
    reveal_strlit("POST");
    reveal_strlit("GET");
    reveal_strlit("CONNECT");
    let before = "/ui/delete"@;
    let name = "id"@;
    assert("/ui/delete?id="@ =~= before + seq!['?'] + (name + seq!['=']));
    assert(delete_link(id) =~= before + seq!['?'] + (name + seq!['='] + url_encoded(id)));
    law_encoded_param(before, name, id);
    law_url_round_trip(id);
    assert("POST"@.len() == 4 && "GET"@.len() == 3 && "CONNECT"@.len() == 7);
    assert(before.is_prefix_of(delete_link(id)));
}

/// What a request to delete an entry removes, `is_entry` telling what is an entry on disk.
pub open spec fn entry_deleted(
    style: PathStyle,
    cache_dir: Seq<char>,
    path: Seq<char>,
    is_entry: spec_fn(EntryPathView) -> bool,
) -> Option<EntryPathView> {
    match delete_plan(style, cache_dir, path) {
        DeletePlanView::Look { entry_path } => deletion(entry_path, is_entry(entry_path)).remove,
        DeletePlanView::Respond(_) => None,
    }
}

/// The button of any entry in the list leads back to the path at which the entry was
/// found, and removes what lies there if it still is an entry.
pub proof fn law_button_finds_the_listed_entry(
    style: PathStyle,
    cache_dir: Seq<char>,
    relative: Seq<char>,
    is_entry: spec_fn(EntryPathView) -> bool,
)
    requires
        entry_at(style, relative) is Some,
        !leads_out(style, relative),
    ensures
        ({
            let link = delete_link(entry_at(style, relative)->0.id);
            &&& delete_plan(style, cache_dir, link) == (DeletePlanView::Look {
                entry_path: id_path(cache_dir, relative),
            })
            &&& entry_deleted(style, cache_dir, link, is_entry) == (if is_entry(
                id_path(cache_dir, relative),
            ) {
                Some(id_path(cache_dir, relative))
            } else {
                None
            })
        }),
{
    law_button_deletes_its_entry(style, cache_dir, relative);
}

/// The button of a stored entry leads to the place at which the entry is stored.
pub proof fn law_button_finds_the_stored_entry(
    style: PathStyle,
    cache_dir: Seq<char>,
    host: Seq<char>,
    kind: Seq<char>,
    name: Seq<char>,
    reference: Seq<char>,
)
    requires
        is_nameable(host, kind, name, reference),
    ensures
        ({
            let id = entry_id(style, host, kind, name, reference);
            &&& entry_at(style, id) matches Some(entry) && entry.id == id
            &&& delete_plan(style, cache_dir, delete_link(id)) matches DeletePlanView::Look {
                entry_path: looked_at,
            } && same_place(
                style,
                looked_at,
                entry_path(cache_dir, host, kind, name, reference),
            )
        }),
{
    let id = entry_id(style, host, kind, name, reference);
    law_stored_entry_is_listed(style, host, kind, name, reference);
    law_entry_lies_in_cache(style, cache_dir, host, kind, name, reference);
    law_button_deletes_its_entry(style, cache_dir, id);
}

/// Whatever a request removes is an entry, at the path that the cache directory and the
/// id in the request make, and that id does not lead out of the cache directory.
pub proof fn law_deletion_stays_in_the_cache(
    style: PathStyle,
    cache_dir: Seq<char>,
    path: Seq<char>,
    is_entry: spec_fn(EntryPathView) -> bool,
)
    ensures
        entry_deleted(style, cache_dir, path, is_entry) matches Some(gone) ==> {
            &&& deleted_id(path) matches Some(id)
            &&& gone == id_path(cache_dir, id)
            &&& !leads_out(style, id)
            &&& is_entry(gone)
        },
{
}

/// The files below the cache directory, each by the directories that lead to it and its
/// name. A directory is an entry if there is a file named `body` in it.
pub open spec fn holds_entry(files: Map<Seq<Seq<char>>, Seq<u8>>, place: Seq<Seq<char>>) -> bool {
    files.contains_key(place.push("body"@))
}

/// The files that are left when a directory is removed with all that is in it.
pub open spec fn without(
    files: Map<Seq<Seq<char>>, Seq<u8>>,
    place: Seq<Seq<char>>,
) -> Map<Seq<Seq<char>>, Seq<u8>> {
    files.remove_keys(Set::new(|name: Seq<Seq<char>>| place.is_prefix_of(name)))
}

/// What is answered to a request to delete an entry, and the files that are left, if
/// what is to be removed is.
pub open spec fn after_delete(
    style: PathStyle,
    cache_dir: Seq<char>,
    files: Map<Seq<Seq<char>>, Seq<u8>>,
    path: Seq<char>,
) -> (Seq<u8>, Map<Seq<Seq<char>>, Seq<u8>>) {
    match delete_plan(style, cache_dir, path) {
        DeletePlanView::Respond(bytes) => (bytes, files),
        DeletePlanView::Look { entry_path } => {
            let outcome = deletion(entry_path, holds_entry(files, steps(style, entry_path.parts)));
            (
                outcome.response,
                match outcome.remove {
                    Some(gone) => without(files, steps(style, gone.parts)),
                    None => files,
                },
            )
        },
    }
}

/// The directory of the entry that a request is to delete, if its id does not lead out of
/// the cache directory and there is an entry there.
pub open spec fn deleted_place(
    style: PathStyle,
    files: Map<Seq<Seq<char>>, Seq<u8>>,
    path: Seq<char>,
) -> Option<Seq<Seq<char>>> {
    match deleted_id(path) {
        Some(id) => if !leads_out(style, id) && holds_entry(files, normal_components(style, id)) {
            Some(normal_components(style, id))
        } else {
            None
        },
        None => None,
    }
}

/// The path with an id leads through the components of the id.
proof fn lemma_steps_of_id(style: PathStyle, cache_dir: Seq<char>, id: Seq<char>)
    ensures
        steps(style, id_path(cache_dir, id).parts) == normal_components(style, id),
{
    reveal_with_fuel(steps, 2);
    assert(seq![id].drop_first() =~= seq![]);
    assert(steps(style, seq![id]) =~= normal_components(style, id));
}

/// A request to delete an entry is refused, and nothing changes, exactly if there is no
/// such entry in the cache. Else the client is sent back to the page, nothing is left of
/// the directory of the entry, and every file outside it stays as it is.
pub proof fn law_deletion_removes_one_entry(
    style: PathStyle,
    cache_dir: Seq<char>,
    files: Map<Seq<Seq<char>>, Seq<u8>>,
    path: Seq<char>,
)
    ensures
        ({
            let (response, left) = after_delete(style, cache_dir, files, path);
            match deleted_place(style, files, path) {
                None => {
                    &&& left == files
                    &&& response == (if deleted_id(path) is None {
                        text_response("400 Bad Request"@, "missing id\n"@)
                    } else {
                        invalid_id()
                    })
                },
                Some(place) => {
                    &&& response == redirect_response("/ui"@)
                    &&& forall|name: Seq<Seq<char>>|
                        place.is_prefix_of(name) ==> !#[trigger] left.contains_key(name)
                    &&& forall|name: Seq<Seq<char>>|
                        !place.is_prefix_of(name) ==> #[trigger] left.contains_key(name)
                            == files.contains_key(name)
                    &&& forall|name: Seq<Seq<char>>|
                        !place.is_prefix_of(name) && files.contains_key(name)
                            ==> #[trigger] left[name] == files[name]
                },
            }
        }),
{
    if let Some(id) = deleted_id(path) {
        lemma_steps_of_id(style, cache_dir, id);
    }
}

/// An entry is deleted once: the same request again is refused, and changes nothing.
pub proof fn law_entry_is_deleted_once(
    style: PathStyle,
    cache_dir: Seq<char>,
    files: Map<Seq<Seq<char>>, Seq<u8>>,
    path: Seq<char>,
)
    requires
        deleted_place(style, files, path) is Some,
    ensures
        ({
            let left = after_delete(style, cache_dir, files, path).1;
            after_delete(style, cache_dir, left, path) == (invalid_id(), left)
        }),
{
    let place = deleted_place(style, files, path)->0;
    let left = after_delete(style, cache_dir, files, path).1;
    law_deletion_removes_one_entry(style, cache_dir, files, path);
    assert(place.is_prefix_of(place.push("body"@)));
    assert(!left.contains_key(place.push("body"@)));
    law_deletion_removes_one_entry(style, cache_dir, left, path);
}

/// The rows of entries are the rows of each of them, one after the other.
proof fn lemma_rows(entries: Seq<CacheEntry>)
    ensures
        rows(entries) == entries.map_values(|entry: CacheEntry| row(entry)).flatten(),
    decreases entries.len(),
{
    let each = |entry: CacheEntry| row(entry);
    if entries.len() > 0 {
        lemma_rows(entries.drop_first());
        assert(entries.map_values(each).drop_first() =~= entries.drop_first().map_values(each));
        assert(entries.map_values(each).first() == row(entries[0]));
    }
}

/// Text in three pieces, the last two taken together or the first two.
proof fn lemma_grouped(a: Seq<char>, b: Seq<char>, c: Seq<char>)
    ensures
        a + (b + c) == (a + b) + c,
{
    assert(a + (b + c) =~= (a + b) + c);
}

/// The rows of some entries and of others are the rows of all of them.
proof fn lemma_rows_of_both(some: Seq<CacheEntry>, others: Seq<CacheEntry>)
    ensures
        rows(some + others) == rows(some) + rows(others),
    decreases some.len(),
{
    let all = some + others;
    if some.len() == 0 {
        assert(all =~= others);
        assert(rows(some) + rows(others) =~= rows(others));
    } else {
        let rest = some.drop_first();
        lemma_rows_of_both(rest, others);
        assert(all.drop_first() =~= rest + others);
        assert(all[0] == some[0]);
        lemma_grouped(row(some[0]), rows(rest), rows(others));
    }
}

/// The page shows how many entries there are, their size together and how long they are
/// kept, and then a table with one row for every entry, in the order given, and no other.
pub proof fn law_page_shows_all_entries(entries: Seq<CacheEntry>, ttl: nat)
    ensures
        ({
            let above
                = "<!doctype html><html><head><meta charset=\"utf-8\"><title>dockerproxy cache</title>"@
                + "<style>body{font-family:system-ui,sans-serif;margin:2rem;}table{border-collapse:collapse;width:100%;}th,td{border-bottom:1px solid #ddd;padding:.5rem;text-align:left;}th{background:#f6f6f6;}code{font-family:ui-monospace,monospace;}button{cursor:pointer;} .muted{color:#666;}</style>"@
                + "</head><body><h1>dockerproxy cache</h1>"@ + "<p class=\"muted\">"@ + decimal(
                entries.len(),
            ) + " entries, "@ + size_text(size_of_all(entries)) + ", ttl "@ + duration_text(ttl)
                + "</p>"@
                + "<table><thead><tr><th>Host</th><th>Type</th><th>Repository</th><th>Reference</th><th>Size</th><th>Age</th><th>Deletes In</th><th></th></tr></thead><tbody>"@;
            let below = "</tbody></table></body></html>"@;
            let body = entries.map_values(|entry: CacheEntry| row(entry));
            page(entries, ttl) == above + body.flatten() + below
        }),
{
    lemma_rows(entries);
}

/// Every entry has its row on the page, with the rows of those before it above and the rows
/// of those after it below.
pub proof fn law_page_has_a_row_for_each_entry(entries: Seq<CacheEntry>, ttl: nat, i: int)
    requires
        0 <= i < entries.len(),
    ensures
        ({
            let above
                = "<!doctype html><html><head><meta charset=\"utf-8\"><title>dockerproxy cache</title>"@
                + "<style>body{font-family:system-ui,sans-serif;margin:2rem;}table{border-collapse:collapse;width:100%;}th,td{border-bottom:1px solid #ddd;padding:.5rem;text-align:left;}th{background:#f6f6f6;}code{font-family:ui-monospace,monospace;}button{cursor:pointer;} .muted{color:#666;}</style>"@
                + "</head><body><h1>dockerproxy cache</h1>"@ + "<p class=\"muted\">"@ + decimal(
                entries.len(),
            ) + " entries, "@ + size_text(size_of_all(entries)) + ", ttl "@ + duration_text(ttl)
                + "</p>"@
                + "<table><thead><tr><th>Host</th><th>Type</th><th>Repository</th><th>Reference</th><th>Size</th><th>Age</th><th>Deletes In</th><th></th></tr></thead><tbody>"@;
            let below = "</tbody></table></body></html>"@;
            let body = entries.map_values(|entry: CacheEntry| row(entry));
            &&& body.len() == entries.len()
            &&& body[i] == row(entries[i])
            &&& page(entries, ttl) == above + body.take(i).flatten() + row(entries[i]) + body.skip(
                i + 1,
            ).flatten() + below
        }),
{
    let above = page_head(entries.len(), size_of_all(entries), ttl)
        + "<table><thead><tr><th>Host</th><th>Type</th><th>Repository</th><th>Reference</th><th>Size</th><th>Age</th><th>Deletes In</th><th></th></tr></thead><tbody>"@;
    let body = entries.map_values(|entry: CacheEntry| row(entry));
    lemma_rows_around(entries, i);
    lemma_regrouped(
        above,
        body.take(i).flatten(),
        row(entries[i]),
        body.skip(i + 1).flatten(),
        "</tbody></table></body></html>"@,
    );
}

/// Text in five pieces, the middle ones taken together or not.
proof fn lemma_regrouped(
    a: Seq<char>,
    b: Seq<char>,
    c: Seq<char>,
    d: Seq<char>,
    e: Seq<char>,
)
    ensures
        a + (b + c + d) + e == a + b + c + d + e,
        a + (b + c + d) + e == (a + b) + c + (d + e),
{
    assert(a + (b + c + d) + e =~= a + b + c + d + e);
    assert(a + (b + c + d) + e =~= (a + b) + c + (d + e));
}

/// The rows of entries, around that of one of them.
proof fn lemma_rows_around(entries: Seq<CacheEntry>, i: int)
    requires
        0 <= i < entries.len(),
    ensures
        ({
            let body = entries.map_values(|entry: CacheEntry| row(entry));
            rows(entries) == body.take(i).flatten() + row(entries[i]) + body.skip(i + 1).flatten()
        }),
{
    let each = |entry: CacheEntry| row(entry);
    let body = entries.map_values(each);
    let first = entries.take(i);
    let last = entries.skip(i + 1);
    let one = seq![entries[i]];
    lemma_rows(first);
    lemma_rows(last);
    assert(body.take(i) =~= first.map_values(each));
    assert(body.skip(i + 1) =~= last.map_values(each));
    assert(entries =~= first + one + last);
    lemma_rows_of_both(first + one, last);
    lemma_rows_of_both(first, one);
    assert(rows(one) =~= row(entries[i])) by {
        reveal_with_fuel(rows, 2);
        assert(one.drop_first() =~= seq![]);
        assert(row(entries[i]) + Seq::<char>::empty() =~= row(entries[i]));
    }
}

/// The row of an entry shows its registry, kind, repository, reference, size, age and the
/// time after which it is deleted, in this order, and then its button. What is not known to
/// expire is deleted now.
pub proof fn law_row_shows_its_entry(entry: CacheEntry)
    ensures
        row(entry) == "<tr>"@ + ("<td>"@ + html_escaped(entry.host@) + "</td>"@) + ("<td>"@
            + html_escaped(entry.kind@) + "</td>"@) + ("<td><code>"@ + html_escaped(
            entry.repository@,
        ) + "</code></td>"@) + ("<td><code>"@ + html_escaped(entry.reference@) + "</code></td>"@)
            + ("<td>"@ + size_text(entry.size as nat) + "</td>"@) + ("<td>"@ + duration_text(
            entry.age_secs as nat,
        ) + "</td>"@) + ("<td>"@ + (if entry.expires {
            duration_text(entry.ttl_remaining_secs as nat)
        } else {
            "now"@
        }) + "</td>"@) + "<td>"@ + ("<form method=\"post\" action=\"/ui/delete?id="@ + url_encoded(
            entry.id@,
        ) + "\"><button type=\"submit\">Delete</button></form>"@) + "</td></tr>"@,
{
}

/// Every listed entry, wherever it stands in the list, has a button on the page that leads
/// to its deletion.
pub proof fn law_page_has_a_button_for_each_entry(entries: Seq<CacheEntry>, ttl: nat, i: int)
    requires
        0 <= i < entries.len(),
    ensures
        exists|before: Seq<char>, after: Seq<char>|
            page(entries, ttl) == #[trigger] (before + delete_link(entries[i].id@) + after),
{
    let entry = entries[i];
    let body = entries.map_values(|entry: CacheEntry| row(entry));
    let above = page_head(entries.len(), size_of_all(entries), ttl)
        + "<table><thead><tr><th>Host</th><th>Type</th><th>Repository</th><th>Reference</th><th>Size</th><th>Age</th><th>Deletes In</th><th></th></tr></thead><tbody>"@;
    let first = body.take(i).flatten();
    let last = body.skip(i + 1).flatten();
    let below = "</tbody></table></body></html>"@;
    lemma_rows_around(entries, i);
    lemma_regrouped(above, first, row(entry), last, below);
    lemma_link_in_row(entry);
    let (before, after) = choose|before: Seq<char>, after: Seq<char>|
        row(entry) == #[trigger] (before + delete_link(entry.id@) + after);
    lemma_regrouped(above + first, before, delete_link(entry.id@), after, last + below);
}

/// The row of an entry holds the link that its button leads to.
proof fn lemma_link_in_row(entry: CacheEntry)
    ensures
        exists|before: Seq<char>, after: Seq<char>|
            row(entry) == #[trigger] (before + delete_link(entry.id@) + after),
{
    let cells = "<tr>"@ + cell(html_escaped(entry.host@)) + cell(html_escaped(entry.kind@))
        + code_cell(html_escaped(entry.repository@)) + code_cell(html_escaped(entry.reference@))
        + cell(size_text(entry.size as nat)) + cell(duration_text(entry.age_secs as nat)) + cell(
        time_left(entry),
    ) + "<td>"@;
    let left = "<form method=\"post\" action=\""@;
    let right = "\"><button type=\"submit\">Delete</button></form>"@;
    let link = delete_link(entry.id@);
    assert("<form method=\"post\" action=\"/ui/delete?id="@ =~= left + "/ui/delete?id="@) by {
        reveal_strlit("<form method=\"post\" action=\"/ui/delete?id=");
        reveal_strlit("<form method=\"post\" action=\"");
        reveal_strlit("/ui/delete?id=");
    }
    assert(delete_button(entry.id@) =~= left + link + right);
    assert(row(entry) == cells + delete_button(entry.id@) + "</td></tr>"@);
    lemma_regrouped(cells, left, link, right, "</td></tr>"@);
    assert(row(entry) == (cells + left) + link + (right + "</td></tr>"@));
}

/// The size of all entries together is the sum of the sizes of each.
pub proof fn law_sizes_add_up(some: Seq<CacheEntry>, others: Seq<CacheEntry>, entry: CacheEntry)
    ensures
        size_of_all(seq![]) == 0,
        size_of_all(seq![entry]) == entry.size,
        size_of_all(some + others) == size_of_all(some) + size_of_all(others),
    decreases some.len(),
{
    reveal_with_fuel(size_of_all, 2);
    assert(seq![entry].drop_first() =~= seq![]);
    if some.len() == 0 {
        assert(some + others =~= others);
    } else {
        law_sizes_add_up(some.drop_first(), others, entry);
        assert((some + others).drop_first() =~= some.drop_first() + others);
    }
}

/// A request to delete an entry goes by the parameter `id` of its query, decoded: without
/// one, or with one that cannot be decoded, it is refused for want of an id; an id that leads
/// out of the cache directory is refused as invalid, and so is, after a look, one at whose
/// place there is no entry; what else it names is removed, and the client sent back.
pub proof fn law_deletion_goes_by_the_id(
    style: PathStyle,
    cache_dir: Seq<char>,
    path: Seq<char>,
    looked_at: EntryPathView,
)
    ensures
        ({
            let plan = delete_plan(style, cache_dir, path);
            let missing = DeletePlanView::Respond(
                text_response("400 Bad Request"@, "missing id\n"@),
            );
            match path_query_value(path, "id"@) {
                None => plan == missing,
                Some(value) => match url_decoded(value) {
                    None => plan == missing,
                    Some(id) => {
                        &&& leads_out(style, id) ==> plan == DeletePlanView::Respond(
                            text_response("400 Bad Request"@, "invalid id\n"@),
                        )
                        &&& !leads_out(style, id) ==> plan == (DeletePlanView::Look {
                            entry_path: EntryPathView { base: cache_dir, parts: seq![id] },
                        })
                    },
                },
            }
        }),
        deletion(looked_at, true) == (DeletionView {
            response: redirect_response("/ui"@),
            remove: Some(looked_at),
        }),
        deletion(looked_at, false) == (DeletionView {
            response: text_response("400 Bad Request"@, "invalid id\n"@),
            remove: None,
        }),
{
}

/// What is seen of a deletion is all that comes of it: what is answered, where it is looked,
/// and what is removed.
pub proof fn law_deletions_are_seen_whole(plan: DeletePlan, outcome: Deletion)
    ensures
        match plan {
            DeletePlan::Respond(bytes) => plan@ == DeletePlanView::Respond(bytes@),
            DeletePlan::Look { entry_path } => plan@ == (DeletePlanView::Look {
                entry_path: entry_path@,
            }),
        },
        outcome@.response == outcome.response@,
        outcome@.remove == match outcome.remove {
            Some(path) => Some(path@),
            None => None,
        },
{
}

} // verus!
