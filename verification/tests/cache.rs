use dockerproxy::cache::{
    is_cache_entry_expired, is_stale, prune_interval_secs, read_cached_response,
    write_cached_response, Age, CachedResponse,
};

fn age(secs: u64, nanos: u32) -> Option<Age> {
    Some(Age { secs, nanos })
}

fn cached(age: Option<Age>) -> CachedResponse {
    CachedResponse { content_type: String::new(), digest: None, body: Vec::new(), age }
}

#[test]
fn entries_expire_after_their_time() {
    assert!(!is_cache_entry_expired(age(9, 999_999_999), 10));
    assert!(!is_cache_entry_expired(age(10, 0), 10));
    assert!(is_cache_entry_expired(age(10, 1), 10));
    assert!(is_cache_entry_expired(age(11, 0), 10));
    assert!(!is_cache_entry_expired(age(0, 0), 0));
    assert!(is_cache_entry_expired(age(0, 1), 0));
    assert!(is_cache_entry_expired(None, u64::MAX));
}

#[test]
fn nothing_is_served_with_a_time_of_zero() {
    assert!(is_stale(&cached(age(0, 0)), 0));
    assert!(!is_stale(&cached(age(10, 0)), 10));
    assert!(is_stale(&cached(age(10, 1)), 10));
    assert!(is_stale(&cached(None), 10));
}

#[test]
fn expired_entries_are_looked_for_now_and_then() {
    for (ttl, interval) in [(0, 60), (59, 60), (60, 60), (100, 100), (3600, 3600), (3601, 3600)] {
        assert_eq!(prune_interval_secs(ttl), interval);
        assert_eq!(prune_interval_secs(ttl), ttl.clamp(60, 3600));
    }
}

#[test]
fn an_entry_has_up_to_three_files() {
    let files = write_cached_response("text/x", Some("sha256:1"), b"body");
    let listed: Vec<(&str, &[u8])> = files.iter().map(|file| (file.name, file.contents)).collect();
    assert_eq!(
        listed,
        vec![
            ("body", b"body".as_slice()),
            ("content-type", b"text/x".as_slice()),
            ("digest", b"sha256:1".as_slice()),
        ]
    );
    assert_eq!(write_cached_response("text/x", None, b"").len(), 2);
}

#[test]
fn what_was_written_is_read_again() {
    let files = write_cached_response(" text/x\n", Some("\tsha256:1 "), b"\xff\x00");
    let read = read_cached_response(
        Some(files[0].contents.to_vec()),
        Some(files[1].contents.to_vec()),
        Some(files[2].contents.to_vec()),
        age(3, 0),
    )
    .unwrap();
    assert_eq!(read.body, b"\xff\x00");
    assert_eq!(read.content_type, "text/x");
    assert_eq!(read.digest.as_deref(), Some("sha256:1"));
    assert_eq!(read.age.map(|age| age.secs), Some(3));
}

#[test]
fn files_may_be_missing_or_spoiled() {
    assert!(read_cached_response(None, Some(b"a/b".to_vec()), None, age(0, 0)).is_none());
    let read = read_cached_response(Some(Vec::new()), None, None, None).unwrap();
    assert_eq!(read.content_type, "application/octet-stream");
    assert_eq!(read.digest, None);
    assert!(read.age.is_none());
    let read =
        read_cached_response(Some(Vec::new()), Some(vec![0xff]), Some(vec![0xc3]), None).unwrap();
    assert_eq!(read.content_type, "application/octet-stream");
    assert_eq!(read.digest, None);
    let read = read_cached_response(Some(Vec::new()), Some(Vec::new()), Some(Vec::new()), None);
    let read = read.unwrap();
    assert_eq!(read.content_type, "");
    assert_eq!(read.digest.as_deref(), Some(""));
}
