use dockerproxy::config::DockerHost;
use dockerproxy::paths::{
    cache_blob_path, cache_entry_path_from_id, cache_manifest_path, component_to_string,
    components, sanitize_path_component, sanitize_slash_path, EntryPath, PathStyle,
};
use std::path::{Component, Path, PathBuf};

fn host(name: &str) -> DockerHost {
    DockerHost { name: name.to_string(), url: String::new(), username: None, token: None }
}

fn text(path: EntryPath) -> String {
    let joined = path.parts.iter().fold(PathBuf::from(&path.base), |built, part| built.join(part));
    joined.to_str().unwrap().to_string()
}

fn from_id(id: &str) -> Option<String> {
    cache_entry_path_from_id(PathStyle::Unix, "cache", id).map(text)
}

const PATHS: [&str; 18] = [
    "", "/", ".", "..", "a", "a/", "/a", "a/b", "a//b", "./a", "a/./b", "a/../b", "...", "/a/b/",
    "größe", "a/..", "a\\..\\b", "C:x",
];

#[test]
fn components_agree_with_the_standard_library() {
    for path in PATHS {
        let expected: Vec<String> = Path::new(path)
            .components()
            .filter_map(|component| match component {
                Component::Normal(name) => Some(name.to_str().unwrap().to_string()),
                _ => None,
            })
            .collect();
        assert_eq!(components(PathStyle::Unix, path), expected, "{path}");
    }
    assert_eq!(component_to_string("a"), Some("a".to_string()));
    assert_eq!(component_to_string("."), None);
    assert_eq!(component_to_string(".."), None);
    assert_eq!(component_to_string(""), None);
}

#[test]
fn backslashes_separate_components_on_windows() {
    let expected = vec!["a".to_string(), "b".to_string(), "c".to_string()];
    assert_eq!(components(PathStyle::Windows, "a\\b/c"), expected);
    assert_eq!(components(PathStyle::Windows, "a\\.\\b\\\\c\\"), expected);
    assert_eq!(components(PathStyle::Unix, "a\\b/c"), vec!["a\\b".to_string(), "c".to_string()]);
}

#[test]
fn other_characters_become_underscores() {
    assert_eq!(sanitize_path_component("sha256:ab-c_d.E"), "sha256_ab-c_d.E");
    assert_eq!(sanitize_path_component("a/b\\c d\0é"), "a_b_c_d__");
    assert_eq!(sanitize_path_component(""), "");
    assert_eq!(sanitize_slash_path("library/nginx"), vec!["library", "nginx"]);
    assert_eq!(sanitize_slash_path("a:b/c d"), vec!["a_b", "c_d"]);
    assert_eq!(sanitize_slash_path(""), vec![""]);
}

#[test]
fn entries_lie_below_the_cache_directory() {
    let path = cache_manifest_path("cache", &host("dockerhub"), "library/nginx", "latest");
    assert_eq!(path.base, "cache");
    assert_eq!(path.parts, vec!["dockerhub", "manifests", "library", "nginx", "latest"]);
    assert_eq!(text(path), "cache/dockerhub/manifests/library/nginx/latest");
    assert_eq!(
        text(cache_blob_path("/data/cache", &host("dockerhub"), "library/nginx", "sha256:1f")),
        "/data/cache/dockerhub/blobs/library/nginx/sha256_1f"
    );
    assert_eq!(
        text(cache_manifest_path("c/", &host("my host"), "a", "b/../c")),
        "c/my_host/manifests/a/b_.._c"
    );
}

#[test]
fn parts_are_joined_as_one_path_is() {
    for cache_dir in ["cache", "", "/", "c/", "."] {
        for name in PATHS {
            for reference in PATHS {
                let slash_path = name.split('/').fold(PathBuf::new(), |built, part| {
                    built.join(sanitize_path_component(part))
                });
                let expected = Path::new(cache_dir)
                    .join(sanitize_path_component(name))
                    .join("manifests")
                    .join(slash_path)
                    .join(sanitize_path_component(reference));
                assert_eq!(
                    text(cache_manifest_path(cache_dir, &host(name), name, reference)),
                    expected.to_str().unwrap(),
                    "{cache_dir} {name} {reference}"
                );
            }
        }
    }
}

#[test]
fn manifests_and_blobs_lie_apart() {
    for (name, reference) in [("a", "b"), ("", ""), ("..", ".."), ("../blobs", "x")] {
        assert_ne!(
            text(cache_manifest_path("cache", &host("h"), name, reference)),
            text(cache_blob_path("cache", &host("h"), name, reference))
        );
    }
}

#[test]
fn entries_of_different_names_lie_apart() {
    let names = [("a/b", "c"), ("a", "b_c"), ("a_b", "c"), ("a", "c"), ("a/b", "d")];
    for (i, (name, reference)) in names.iter().enumerate() {
        for (j, (other, other_reference)) in names.iter().enumerate() {
            let same = text(cache_manifest_path("x", &host("h"), name, reference))
                == text(cache_manifest_path("x", &host("h"), other, other_reference));
            assert_eq!(same, i == j);
        }
    }
    assert_eq!(
        text(cache_blob_path("x", &host("h"), "a", "sha256:1")),
        text(cache_blob_path("x", &host("h"), "a", "sha256_1"))
    );
}

#[test]
fn ids_lead_to_entries() {
    assert_eq!(
        from_id("dockerhub/manifests/a/b"),
        Some("cache/dockerhub/manifests/a/b".to_string())
    );
    assert_eq!(from_id(""), Some("cache/".to_string()));
    assert_eq!(from_id("./a"), Some("cache/./a".to_string()));
    assert_eq!(from_id("a..b"), Some("cache/a..b".to_string()));
    let path = cache_entry_path_from_id(PathStyle::Windows, "cache", "a\\b").unwrap();
    assert_eq!((path.base.as_str(), path.parts), ("cache", vec!["a\\b".to_string()]));
}

#[test]
fn ids_do_not_lead_out_of_the_cache() {
    for id in ["/etc", "..", "../x", "a/..", "a/../../b", "/"] {
        assert_eq!(from_id(id), None, "{id}");
    }
    for id in PATHS {
        let path = Path::new(id);
        let leads_out = path.is_absolute()
            || path
                .components()
                .any(|part| matches!(part, Component::ParentDir | Component::RootDir));
        assert_eq!(from_id(id).is_none(), leads_out, "{id}");
    }
}

#[test]
fn ids_do_not_lead_out_of_the_cache_on_windows() {
    let refused = |id: &str| cache_entry_path_from_id(PathStyle::Windows, "cache", id).is_none();
    for id in [
        "..", "..\\x", "a\\..", "a\\..\\b", "a/..\\b", "\\etc", "/etc", "C:", "c:x", "Z:\\x",
        "\\\\server\\share\\x", "\\\\?\\C:\\x", "//server/share",
    ] {
        assert!(refused(id), "{id}");
    }
    for id in ["a\\b", "a/b", "", ".\\a", "a..b", "1:x", "ab:c", "é:x", "C", "..."] {
        assert!(!refused(id), "{id}");
    }
}
