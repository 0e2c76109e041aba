use dockerproxy::cache::Age;
use dockerproxy::config::DockerHost;
use dockerproxy::listing::{cache_entry_from_path, is_listed, sort_entries, CacheEntry};
use dockerproxy::paths::{cache_blob_path, PathStyle};

fn entry(host: &str, kind: &str, repository: &str, reference: &str, size: u64) -> CacheEntry {
    CacheEntry {
        id: format!("{host}/{kind}/{repository}/{reference}"),
        host: host.to_string(),
        kind: kind.to_string(),
        repository: repository.to_string(),
        reference: reference.to_string(),
        size,
        age_secs: 0,
        ttl_remaining_secs: 0,
        expires: true,
    }
}

#[test]
fn a_place_says_what_an_entry_is() {
    let found = cache_entry_from_path(
        PathStyle::Unix,
        "dockerhub/manifests/library/nginx/latest",
        12,
        Some(Age { secs: 30, nanos: 5 }),
        true,
        100,
    )
    .unwrap();
    assert_eq!(found.id, "dockerhub/manifests/library/nginx/latest");
    assert_eq!(found.host, "dockerhub");
    assert_eq!(found.kind, "manifests");
    assert_eq!(found.repository, "library/nginx");
    assert_eq!(found.reference, "latest");
    assert_eq!((found.size, found.age_secs, found.ttl_remaining_secs), (12, 30, 70));
    assert!(found.expires);
}

#[test]
fn a_place_has_four_components() {
    assert!(cache_entry_from_path(PathStyle::Unix, "a/b/c", 0, None, true, 1).is_none());
    assert!(cache_entry_from_path(PathStyle::Unix, "", 0, None, true, 1).is_none());
    assert!(cache_entry_from_path(PathStyle::Unix, "a//b/./c", 0, None, true, 1).is_none());
    let found = cache_entry_from_path(PathStyle::Unix, "a/b/c/d", 0, None, false, 1).unwrap();
    assert_eq!(found.repository, "c");
    assert_eq!(found.reference, "d");
    assert!(!found.expires);
}

#[test]
fn only_deep_places_are_listed() {
    assert!(is_listed(PathStyle::Unix, "a/b/c/d"));
    assert!(is_listed(PathStyle::Unix, "a/b/c/d/e"));
    assert!(!is_listed(PathStyle::Unix, "a/b/c"));
    assert!(!is_listed(PathStyle::Unix, "a\\b\\c\\d"));
    assert!(is_listed(PathStyle::Windows, "a\\b\\c\\d"));
    let found = cache_entry_from_path(PathStyle::Windows, "a\\b\\c\\d\\e", 0, None, true, 1);
    let found = found.unwrap();
    assert_eq!((found.id.as_str(), found.repository.as_str()), ("a\\b\\c\\d\\e", "c/d"));
}

#[test]
fn no_time_is_left_once_it_is_over() {
    let old = Some(Age { secs: 50, nanos: 0 });
    assert_eq!(cache_entry_from_path(PathStyle::Unix, "a/b/c/d", 0, old, true, 20).unwrap().ttl_remaining_secs, 0);
    let unknown = cache_entry_from_path(PathStyle::Unix, "a/b/c/d", 0, None, true, 20).unwrap();
    assert_eq!((unknown.age_secs, unknown.ttl_remaining_secs), (0, 20));
}

#[test]
fn a_stored_entry_is_listed() {
    let host = DockerHost {
        name: "my host".to_string(),
        url: String::new(),
        username: None,
        token: None,
    };
    let path = cache_blob_path("cache", &host, "library/nginx", "sha256:1");
    let id = path.parts.join("/");
    let found = cache_entry_from_path(PathStyle::Unix, &id, 0, None, true, 0).unwrap();
    assert_eq!(
        (found.host.as_str(), found.kind.as_str(), found.repository.as_str()),
        ("my_host", "blobs", "library/nginx")
    );
    assert_eq!(found.reference, "sha256_1");
}

#[test]
fn entries_are_ordered_as_by_a_stable_sort() {
    let words = ["", "a", "A", "aa", "b", "é", "z", "\u{ffff}", "\u{10000}"];
    let mut seed: u64 = 42;
    for round in 0..200usize {
        let mut list = Vec::new();
        for size in 0..(round % 23) as u64 {
            let mut word = || {
                seed = seed.wrapping_mul(6364136223846793005).wrapping_add(1442695040888963407);
                words[(seed >> 40) as usize % words.len()]
            };
            let (a, b, c, d) = (word(), word(), word(), word());
            let b = if round % 2 == 0 { "k" } else { b };
            list.push(entry(a, b, c, d, size));
        }
        let mut expected: Vec<(String, String, String, String, u64)> = list
            .iter()
            .map(|e| {
                (
                    e.host.clone(),
                    e.kind.clone(),
                    e.repository.clone(),
                    e.reference.clone(),
                    e.size,
                )
            })
            .collect();
        expected.sort_by_key(|e| (e.0.clone(), e.1.clone(), e.2.clone(), e.3.clone()));
        let sorted: Vec<(String, String, String, String, u64)> = sort_entries(list)
            .into_iter()
            .map(|e| (e.host, e.kind, e.repository, e.reference, e.size))
            .collect();
        assert_eq!(sorted, expected);
    }
}
