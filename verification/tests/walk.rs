use dockerproxy::cache::Age;
use dockerproxy::listing::sort_entries;
use dockerproxy::paths::PathStyle;
use dockerproxy::walk::{Described, EmptyDirSweep, EntryWalk, Found, SweepAction};

/// A directory: its name, the age of its body if it is an entry, the other files in it
/// counted, and the directories in it.
struct Tree {
    name: &'static str,
    age: Option<u64>,
    files: usize,
    subdirs: Vec<Tree>,
}

fn dir(name: &'static str, subdirs: Vec<Tree>) -> Tree {
    Tree { name, age: None, files: 0, subdirs }
}

fn entry(name: &'static str, age: u64) -> Tree {
    Tree { name, age: Some(age), files: 1, subdirs: Vec::new() }
}

fn sample() -> Tree {
    dir(
        "root",
        vec![
            dir("a", vec![entry("a1", 5), entry("a2", 50), dir("a3", vec![])]),
            dir("b", vec![dir("b1", vec![dir("b2", vec![])])]),
            entry("c", 51),
            Tree { name: "d", age: None, files: 1, subdirs: vec![dir("d1", vec![])] },
            dir("e", vec![dir("e1", vec![entry("e2", 100)]), dir("e3", vec![])]),
        ],
    )
}

#[test]
fn a_pruning_walk_removes_the_expired_entries() {
    let root = sample();
    let mut walk = EntryWalk::new(&root);
    let mut met = Vec::new();
    let mut removed = Vec::new();
    while let Some(tree) = walk.next() {
        let found = match tree.age {
            Some(secs) => {
                met.push(tree.name);
                Found::Entry { age: Some(Age { secs, nanos: 0 }) }
            }
            None => Found::Directory { subdirs: tree.subdirs.iter().collect() },
        };
        if walk.prune_expired_entries(found, 50) {
            removed.push(tree.name);
        }
    }
    assert_eq!(met, vec!["a1", "a2", "c", "e2"]);
    assert_eq!(removed, vec!["c", "e2"]);
}

#[test]
fn an_entry_of_unknown_age_is_removed() {
    let mut walk = EntryWalk::new(0);
    assert_eq!(walk.next(), Some(0));
    assert!(walk.prune_expired_entries(Found::Entry { age: None }, u64::MAX));
    assert_eq!(walk.next(), None);
    assert_eq!(walk.next(), None);
}

#[test]
fn a_listing_walk_collects_entries_in_order() {
    let mut walk = EntryWalk::new("".to_string());
    let mut entries = Vec::new();
    let mut visited = Vec::new();
    while let Some(path) = walk.next() {
        visited.push(path.clone());
        let found = match path.as_str() {
            "" => Described::Directory { subdirs: vec!["h".to_string(), "x/y/z".to_string()] },
            "h" => Described::Directory {
                subdirs: vec!["h/k/r/1".to_string(), "h/k/r/2".to_string()],
            },
            _ => Described::Entry {
                relative: path.clone(),
                size: path.len() as u64,
                age: Some(Age { secs: 1, nanos: 0 }),
                expires: true,
            },
        };
        walk.collect_cache_entries(&mut entries, found, PathStyle::Unix, 10);
    }
    assert_eq!(visited, vec!["", "h", "h/k/r/1", "h/k/r/2", "x/y/z"]);
    let ids: Vec<&str> = entries.iter().map(|entry| entry.id.as_str()).collect();
    assert_eq!(ids, vec!["h/k/r/1", "h/k/r/2"]);
    assert_eq!(entries[0].ttl_remaining_secs, 9);
}

fn swept(root: &Tree) -> (Vec<&'static str>, bool) {
    let mut sweep = EmptyDirSweep::new(root, root.subdirs.iter().collect(), root.files > 0);
    let mut removed = Vec::new();
    loop {
        match sweep.remove_empty_dirs() {
            SweepAction::Visit(tree) => {
                sweep.entered(tree, tree.subdirs.iter().collect(), tree.files > 0)
            }
            SweepAction::Remove(tree) => removed.push(tree.name),
            SweepAction::Done(empty) => return (removed, empty),
        }
    }
}

fn hollow(tree: &Tree, removed: &mut Vec<&'static str>) -> bool {
    let mut empty = tree.files == 0;
    for subdir in &tree.subdirs {
        if hollow(subdir, removed) {
            removed.push(subdir.name);
        } else {
            empty = false;
        }
    }
    empty
}

#[test]
fn a_sweep_removes_directories_without_files() {
    let root = sample();
    assert_eq!(swept(&root), (vec!["a3", "b2", "b1", "b", "d1", "e3"], false));
    let mut expected = Vec::new();
    let empty = hollow(&root, &mut expected);
    assert_eq!(swept(&root), (expected, empty));
}

#[test]
fn a_sweep_leaves_the_directory_it_starts_at() {
    assert_eq!(swept(&dir("root", vec![])), (vec![], true));
    assert_eq!(swept(&dir("root", vec![dir("a", vec![])])), (vec!["a"], true));
    assert_eq!(swept(&entry("root", 0)), (vec![], false));
}

/// The directories below the root of a tree that hold a file at some depth once the
/// expired entries are gone; says whether the root does.
fn cleaned(tree: &Tree, ttl: u64, left: &mut Vec<&'static str>) -> bool {
    let mut holds_file = tree.files > 0;
    for subdir in &tree.subdirs {
        if subdir.age.is_some_and(|age| age > ttl) {
            continue;
        }
        let mut below = Vec::new();
        if cleaned(subdir, ttl, &mut below) {
            holds_file = true;
            left.push(subdir.name);
            left.append(&mut below);
        }
    }
    holds_file
}

#[test]
fn pruning_and_sweeping_leave_fresh_entries_only() {
    let mut root = sample();
    fn prune(tree: &mut Tree, ttl: u64) {
        tree.subdirs.retain(|subdir| {
            let mut walk = EntryWalk::new(0);
            walk.next();
            let found = match subdir.age {
                Some(secs) => Found::Entry { age: Some(Age { secs, nanos: 0 }) },
                None => Found::Directory { subdirs: Vec::new() },
            };
            !walk.prune_expired_entries(found, ttl)
        });
        for subdir in &mut tree.subdirs {
            prune(subdir, ttl);
        }
    }
    let mut expected = Vec::new();
    cleaned(&root, 50, &mut expected);
    prune(&mut root, 50);
    let (gone, empty) = swept(&root);
    assert_eq!(gone, vec!["a3", "b2", "b1", "b", "d1", "e1", "e3", "e"]);
    assert!(!empty);
    assert_eq!(expected, vec!["a", "a1", "a2", "d"]);
}

#[test]
fn the_list_holds_each_deep_entry_once() {
    let places = ["q/m/r/2", "q/m/r", "h/m/x/y/1", "h/b/x/1", "q/m/r/1"];
    let mut walk = EntryWalk::new("".to_string());
    let mut entries = Vec::new();
    while let Some(path) = walk.next() {
        let found = if path.is_empty() {
            Described::Directory { subdirs: places.iter().map(|place| place.to_string()).collect() }
        } else {
            Described::Entry { relative: path, size: 1, age: None, expires: true }
        };
        walk.collect_cache_entries(&mut entries, found, PathStyle::Unix, 10);
    }
    let list = sort_entries(entries);
    let ids: Vec<&str> = list.iter().map(|entry| entry.id.as_str()).collect();
    assert_eq!(ids, vec!["h/b/x/1", "h/m/x/y/1", "q/m/r/1", "q/m/r/2"]);
}
