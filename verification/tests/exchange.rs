use dockerproxy::cache::{read_cached_response, Age, CachedResponse};
use dockerproxy::config::DockerHost;
use dockerproxy::exchange::{fetch_and_maybe_store, Action, Event, Exchange, UpstreamResponse};
use dockerproxy::registry::Authorization;
use reqwest::header::{HeaderMap, HeaderValue};

fn host() -> DockerHost {
    DockerHost {
        name: "dockerhub".to_string(),
        url: "https://registry-1.docker.io".to_string(),
        username: None,
        token: None,
    }
}

const PATH: &str = "/v2/library/nginx/manifests/latest";

fn exchange<'a>(host: &'a DockerHost, method: &'a str, ttl: u64, store: bool) -> Exchange<'a> {
    Exchange::new(host, method, PATH.to_string(), ttl, store)
}

fn cached(secs: u64) -> CachedResponse {
    CachedResponse {
        content_type: "a/b".to_string(),
        digest: Some("sha256:1".to_string()),
        body: b"body".to_vec(),
        age: Some(Age { secs, nanos: 0 }),
    }
}

fn headers(fields: &[(&'static str, &'static str)]) -> HeaderMap {
    let mut map = HeaderMap::new();
    for (name, value) in fields {
        map.insert(*name, HeaderValue::from_static(value));
    }
    map
}

fn responded(action: Action) -> String {
    match action {
        Action::Respond(bytes) => String::from_utf8(bytes).unwrap(),
        _ => panic!("no response"),
    }
}

const CACHED_HEAD: &str = "HTTP/1.1 200 OK\r\nDocker-Distribution-Api-Version: registry/2.0\r\nContent-Type: a/b\r\nContent-Length: 4\r\nConnection: close\r\nDocker-Content-Digest: sha256:1\r\n\r\n";

#[test]
fn what_is_cached_is_served_at_once() {
    let host = host();
    let mut get = exchange(&host, "GET", 10, true);
    assert_eq!(
        responded(get.step(Event::Found(Some(cached(10))))),
        format!("{CACHED_HEAD}body")
    );
    assert!(matches!(get.step(Event::Evicted), Action::Abort));
    let mut head = exchange(&host, "HEAD", 10, true);
    assert_eq!(responded(head.step(Event::Found(Some(cached(0))))), CACHED_HEAD);
}

#[test]
fn what_has_expired_is_removed_and_fetched() {
    let host = host();
    for (age, ttl) in [(11, 10), (0, 0)] {
        let mut exchange = exchange(&host, "GET", ttl, true);
        assert!(matches!(exchange.step(Event::Found(Some(cached(age)))), Action::Evict));
        match exchange.step(Event::Evicted) {
            Action::Ask(request) => {
                assert_eq!(request.method, "GET");
                assert_eq!(request.url, format!("https://registry-1.docker.io{PATH}"));
                assert!(matches!(request.authorization, Authorization::Nothing));
            }
            _ => panic!("nothing asked"),
        }
    }
}

#[test]
fn what_is_missing_is_fetched_and_stored() {
    let host = host();
    let mut exchange = exchange(&host, "HEAD", 10, true);
    assert_eq!(exchange.path(), PATH);
    assert!(exchange.files().is_empty());
    match exchange.step(Event::Found(None)) {
        Action::Ask(request) => assert_eq!(request.method, "GET"),
        _ => panic!("nothing asked"),
    }
    let answer = headers(&[("content-type", "a/b"), ("docker-content-digest", "sha256:1")]);
    assert!(matches!(
        exchange.step(Event::Answered { status: 200, headers: answer }),
        Action::ReadBody
    ));
    assert!(matches!(exchange.step(Event::Body(b"body".to_vec())), Action::Store));
    let files: Vec<(&str, Vec<u8>)> = exchange
        .files()
        .iter()
        .map(|file| (file.name, file.contents.to_vec()))
        .collect();
    assert_eq!(
        files,
        vec![
            ("body", b"body".to_vec()),
            ("content-type", b"a/b".to_vec()),
            ("digest", b"sha256:1".to_vec()),
        ]
    );
    assert_eq!(responded(exchange.step(Event::Stored)), CACHED_HEAD);
    assert!(exchange.files().is_empty());
}

#[test]
fn what_was_stored_is_served_later() {
    let host = host();
    let mut first = exchange(&host, "GET", 10, true);
    first.step(Event::Found(None));
    let answer = headers(&[("content-type", "a/b"), ("docker-content-digest", "sha256:1")]);
    first.step(Event::Answered { status: 201, headers: answer });
    first.step(Event::Body(b"body".to_vec()));
    let file = |name: &str| {
        first.files().iter().find(|file| file.name == name).map(|file| file.contents.to_vec())
    };
    let read = read_cached_response(
        file("body"),
        file("content-type"),
        file("digest"),
        Some(Age { secs: 10, nanos: 0 }),
    );
    let mut second = exchange(&host, "GET", 10, true);
    assert_eq!(responded(second.step(Event::Found(read))), format!("{CACHED_HEAD}body"));
}

#[test]
fn failures_are_passed_on_and_not_stored() {
    let host = host();
    let mut failed = exchange(&host, "GET", 10, true);
    failed.step(Event::Found(None));
    failed.step(Event::Answered { status: 404, headers: HeaderMap::new() });
    let response = responded(failed.step(Event::Body(b"gone".to_vec())));
    assert!(response.starts_with("HTTP/1.1 404 Not Found\r\n"));
    assert!(response.ends_with("\r\n\r\ngone"));
    assert!(failed.files().is_empty());
}

#[test]
fn the_head_of_a_blob_is_not_stored() {
    let host = host();
    let mut exchange = exchange(&host, "HEAD", 10, false);
    match exchange.step(Event::Found(None)) {
        Action::Ask(request) => assert_eq!(request.method, "HEAD"),
        _ => panic!("nothing asked"),
    }
    exchange.step(Event::Answered { status: 200, headers: HeaderMap::new() });
    let response = responded(exchange.step(Event::Body(Vec::new())));
    assert!(response.starts_with("HTTP/1.1 200 OK\r\n"));
}

fn challenged<'a>(host: &'a DockerHost) -> Exchange<'a> {
    let mut exchange = exchange(host, "GET", 10, true);
    exchange.step(Event::Found(None));
    let challenge = headers(&[("www-authenticate", "Bearer realm=\"https://auth\",service=\"s\"")]);
    match exchange.step(Event::Answered { status: 401, headers: challenge }) {
        Action::AskForToken(request) => {
            assert_eq!(request.realm, "https://auth");
            assert_eq!(request.query, vec![("service".to_string(), "s".to_string())]);
        }
        _ => panic!("no token asked for"),
    }
    exchange
}

#[test]
fn a_challenge_is_answered_with_a_token() {
    let host = host();
    for (token, access_token, expected) in
        [(Some("t"), Some("a"), "t"), (None, Some("a"), "a"), (Some("t"), None, "t")]
    {
        let mut exchange = challenged(&host);
        let event = Event::Token {
            token: token.map(str::to_string),
            access_token: access_token.map(str::to_string),
        };
        match exchange.step(event) {
            Action::Ask(request) => {
                assert!(matches!(request.authorization, Authorization::Bearer(t) if t == expected))
            }
            _ => panic!("nothing asked"),
        }
        assert!(matches!(
            exchange.step(Event::Answered { status: 401, headers: HeaderMap::new() }),
            Action::ReadBody
        ));
        let response = responded(exchange.step(Event::Body(Vec::new())));
        assert!(response.starts_with("HTTP/1.1 401 Unauthorized\r\n"));
    }
}

#[test]
fn without_a_token_the_first_answer_is_passed_on() {
    let host = host();
    let mut exchange = challenged(&host);
    assert!(matches!(
        exchange.step(Event::Token { token: None, access_token: None }),
        Action::ReadBody
    ));
    let response = responded(exchange.step(Event::Body(b"no".to_vec())));
    assert!(response.starts_with("HTTP/1.1 401 Unauthorized\r\n"));
    assert!(response.ends_with("\r\n\r\nno"));
}

#[test]
fn a_method_that_is_none_is_rejected() {
    let host = host();
    let mut exchange = exchange(&host, "not a method", 10, false);
    assert!(matches!(exchange.step(Event::Found(None)), Action::Reject));
    assert!(matches!(exchange.step(Event::Found(None)), Action::Abort));
}

#[test]
fn events_out_of_turn_end_an_exchange() {
    let host = host();
    let mut exchange = exchange(&host, "GET", 10, true);
    assert!(matches!(exchange.step(Event::Stored), Action::Abort));
    assert!(matches!(exchange.step(Event::Found(Some(cached(0)))), Action::Abort));
}

#[test]
fn only_successes_that_are_to_be_stored_are() {
    for (status, store, stored) in [
        (200u16, true, true),
        (299, true, true),
        (199, true, false),
        (300, true, false),
        (404, true, false),
        (200, false, false),
    ] {
        let answer = UpstreamResponse {
            status,
            headers: headers(&[("docker-content-digest", "sha256:1")]),
            body: Vec::new(),
        };
        let kept = fetch_and_maybe_store(&answer, store);
        assert_eq!(kept.is_some(), stored, "{status}");
        if let Some(kept) = kept {
            assert_eq!(kept.content_type, "application/octet-stream");
            assert_eq!(kept.digest.as_deref(), Some("sha256:1"));
        }
    }
}

#[test]
fn upstream_is_asked_twice_at_most() {
    let host = host();
    let mut exchange = exchange(&host, "GET", 10, true);
    let mut asked = 0;
    let mut tokens = 0;
    let mut action = exchange.step(Event::Found(None));
    for _ in 0..10 {
        let event = match action {
            Action::Ask(_) => {
                asked += 1;
                let challenge = headers(&[("www-authenticate", "Bearer realm=\"x\"")]);
                Event::Answered { status: 401, headers: challenge }
            }
            Action::AskForToken(_) => {
                tokens += 1;
                Event::Token { token: Some("t".to_string()), access_token: None }
            }
            _ => Event::Body(Vec::new()),
        };
        action = exchange.step(event);
    }
    assert_eq!((asked, tokens), (2, 1));
    assert!(matches!(action, Action::Abort));
}
