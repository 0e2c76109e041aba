use dockerproxy::listing::CacheEntry;
use dockerproxy::paths::{EntryPath, PathStyle};
use dockerproxy::request::{route, Route};
use dockerproxy::ui::{
    delete_cache_entry, handle_ui_delete, total_size, write_ui_response, DeletePlan,
};

fn entry(id: &str, size: u64, expires: bool) -> CacheEntry {
    CacheEntry {
        id: id.to_string(),
        host: "docker<hub>".to_string(),
        kind: "manifests".to_string(),
        repository: "library/nginx".to_string(),
        reference: "a&b".to_string(),
        size,
        age_secs: 61,
        ttl_remaining_secs: 3600,
        expires,
    }
}

fn text(bytes: Vec<u8>) -> String {
    String::from_utf8(bytes).unwrap()
}

const ABOVE: &str = "<!doctype html><html><head><meta charset=\"utf-8\"><title>dockerproxy cache</title><style>body{font-family:system-ui,sans-serif;margin:2rem;}table{border-collapse:collapse;width:100%;}th,td{border-bottom:1px solid #ddd;padding:.5rem;text-align:left;}th{background:#f6f6f6;}code{font-family:ui-monospace,monospace;}button{cursor:pointer;} .muted{color:#666;}</style></head><body><h1>dockerproxy cache</h1>";
const TABLE: &str = "<table><thead><tr><th>Host</th><th>Type</th><th>Repository</th><th>Reference</th><th>Size</th><th>Age</th><th>Deletes In</th><th></th></tr></thead><tbody>";
const BELOW: &str = "</tbody></table></body></html>";

fn page(entries: Vec<CacheEntry>, ttl: u64) -> String {
    let mut out = Vec::new();
    write_ui_response(&mut out, &entries, ttl);
    let response = text(out);
    let (head, body) = response.split_once("\r\n\r\n").unwrap();
    assert_eq!(
        head,
        format!(
            "HTTP/1.1 200 OK\r\nContent-Type: text/html; charset=utf-8\r\nContent-Length: {}\r\nConnection: close",
            body.len()
        )
    );
    body.to_string()
}

#[test]
fn an_empty_cache_has_an_empty_table() {
    assert_eq!(
        page(Vec::new(), 31_557_600),
        format!("{ABOVE}<p class=\"muted\">0 entries, 0 B, ttl 365d 6h</p>{TABLE}{BELOW}")
    );
}

#[test]
fn entries_have_rows() {
    let row = |id: &str, size: &str, left: &str| {
        format!(
            "<tr><td>docker&lt;hub&gt;</td><td>manifests</td><td><code>library/nginx</code></td><td><code>a&amp;b</code></td><td>{size}</td><td>1m</td><td>{left}</td><td><form method=\"post\" action=\"/ui/delete?id={id}\"><button type=\"submit\">Delete</button></form></td></tr>"
        )
    };
    assert_eq!(
        page(vec![entry("x/y z", 1024, true), entry("w", 512, false)], 60),
        format!(
            "{ABOVE}<p class=\"muted\">2 entries, 1.5 KiB, ttl 1m</p>{TABLE}{}{}{BELOW}",
            row("x%2Fy%20z", "1.0 KiB", "1h 0m"),
            row("w", "512 B", "now")
        )
    );
}

#[test]
fn sizes_are_added_up() {
    assert_eq!(total_size(&Vec::new()), Some(0));
    assert_eq!(total_size(&vec![entry("a", 5, true), entry("b", 7, true)]), Some(12));
    assert_eq!(total_size(&vec![entry("a", u64::MAX, true)]), Some(u64::MAX));
    assert_eq!(total_size(&vec![entry("a", u64::MAX, true), entry("b", 1, true)]), None);
}

fn looked_at(path: &str) -> Option<String> {
    match handle_ui_delete(PathStyle::Unix, "cache", path) {
        DeletePlan::Look { entry_path } => {
            Some(format!("{}/{}", entry_path.base, entry_path.parts.join("/")))
        }
        DeletePlan::Respond(_) => None,
    }
}

fn refused(path: &str) -> String {
    match handle_ui_delete(PathStyle::Unix, "cache", path) {
        DeletePlan::Respond(bytes) => text(bytes),
        DeletePlan::Look { .. } => panic!("not refused"),
    }
}

const MISSING: &str = "HTTP/1.1 400 Bad Request\r\nContent-Type: text/plain; charset=utf-8\r\nContent-Length: 11\r\nConnection: close\r\n\r\nmissing id\n";
const INVALID: &str = "HTTP/1.1 400 Bad Request\r\nContent-Type: text/plain; charset=utf-8\r\nContent-Length: 11\r\nConnection: close\r\n\r\ninvalid id\n";

#[test]
fn an_id_leads_to_an_entry() {
    assert_eq!(
        looked_at("/ui/delete?id=dockerhub%2Fmanifests%2Fa%2Fb"),
        Some("cache/dockerhub/manifests/a/b".to_string())
    );
}

#[test]
fn requests_without_an_id_are_refused() {
    for path in ["/ui/delete", "/ui/delete?", "/ui/delete?x=1", "/ui/delete?id=%zz", "/ui/delete?id=%ff"] {
        assert_eq!(refused(path), MISSING);
    }
}

#[test]
fn ids_that_lead_out_are_refused() {
    for id in ["..", "..%2Fx", "%2Fetc", "a%2F..%2F..%2Fb", "/etc"] {
        assert_eq!(refused(&format!("/ui/delete?id={id}")), INVALID);
    }
}

#[test]
fn only_an_entry_is_removed() {
    let path = || EntryPath { base: "cache".to_string(), parts: vec!["a/b".to_string()] };
    let done = delete_cache_entry(path(), true);
    assert_eq!(
        text(done.response),
        "HTTP/1.1 303 See Other\r\nLocation: /ui\r\nContent-Length: 0\r\nConnection: close\r\n\r\n"
    );
    let gone = done.remove.unwrap();
    assert_eq!((gone.base.as_str(), gone.parts), ("cache", vec!["a/b".to_string()]));
    let refused = delete_cache_entry(path(), false);
    assert_eq!(text(refused.response), INVALID);
    assert!(refused.remove.is_none());
}

#[test]
fn backslashes_lead_out_on_windows_only() {
    let link = "/ui/delete?id=a%5C..%5C..%5Cb";
    assert!(matches!(
        handle_ui_delete(PathStyle::Windows, "cache", link),
        DeletePlan::Respond(bytes) if text(bytes.clone()) == INVALID
    ));
    assert_eq!(looked_at(link), Some("cache/a\\..\\..\\b".to_string()));
}

#[test]
fn the_button_of_an_entry_deletes_that_entry() {
    for id in ["dockerhub/manifests/library/nginx/latest", "a b&c=d?e/é/f%2F/g"] {
        let html = page(vec![entry(id, 1, true)], 1);
        let (_, rest) = html.split_once("action=\"").unwrap();
        let (link, _) = rest.split_once('"').unwrap();
        assert!(matches!(route("POST", link), Route::Delete { path } if path == link));
        assert_eq!(looked_at(link), Some(format!("cache/{id}")));
    }
}

/// Answers a request to delete an entry on a list of files, each by its path below the
/// cache directory.
fn delete_from(files: &mut Vec<&'static str>, link: &str) -> String {
    match handle_ui_delete(PathStyle::Unix, "cache", link) {
        DeletePlan::Respond(bytes) => text(bytes),
        DeletePlan::Look { entry_path } => {
            let body = format!("{}/body", entry_path.parts.join("/"));
            let is_entry = files.contains(&body.as_str());
            let outcome = delete_cache_entry(entry_path, is_entry);
            if let Some(gone) = outcome.remove {
                let below = format!("{}/", gone.parts.join("/"));
                files.retain(|file| !file.starts_with(&below));
            }
            text(outcome.response)
        }
    }
}

#[test]
fn an_entry_is_deleted_once_and_nothing_else_is() {
    let mut files = vec!["h/m/a/1/body", "h/m/a/1/digest", "h/m/a/10/body", "h/m/b/1/body"];
    let link = "/ui/delete?id=h%2Fm%2Fa%2F1";
    assert!(delete_from(&mut files, link).starts_with("HTTP/1.1 303 See Other\r\n"));
    assert_eq!(files, vec!["h/m/a/10/body", "h/m/b/1/body"]);
    assert_eq!(delete_from(&mut files, link), INVALID);
    assert_eq!(delete_from(&mut files, "/ui/delete?id=h%2Fm"), INVALID);
    assert_eq!(delete_from(&mut files, "/ui/delete"), MISSING);
    assert_eq!(files, vec!["h/m/a/10/body", "h/m/b/1/body"]);
}
