use dockerproxy::cache::{Age, CachedResponse};
use dockerproxy::config::{Config, DockerHost};
use dockerproxy::exchange::{Action, Event};
use dockerproxy::paths::PathStyle;
use dockerproxy::server::{
    handle_connection, handle_registry_request, handle_request, tunnel_connect, RegistryTask, Task,
};
use dockerproxy::ui::DeletePlan;

fn host(name: &str, url: &str) -> DockerHost {
    DockerHost { name: name.to_string(), url: url.to_string(), username: None, token: None }
}

fn config() -> Config {
    Config {
        hosts: vec![
            host("dockerhub", "https://registry-1.docker.io"),
            host("google", "https://gcr.io"),
            host("quay", "https://quay.io"),
        ],
        ttl: None,
        log_level: None,
    }
}

fn text(bytes: Vec<u8>) -> String {
    String::from_utf8(bytes).unwrap()
}

fn plain(status: &str, body: &str) -> String {
    format!(
        "HTTP/1.1 {status}\r\nContent-Type: text/plain; charset=utf-8\r\nContent-Length: {}\r\nConnection: close\r\n\r\n{body}",
        body.len()
    )
}

fn responded(method: &str, path: &str) -> String {
    match handle_connection(&config(), PathStyle::Unix, "cache", 10, method, path) {
        Task::Respond(bytes) => text(bytes),
        Task::Registry(plan) => match plan.task {
            RegistryTask::Respond(bytes) => text(bytes),
            RegistryTask::Serve { .. } => panic!("served"),
        },
        _ => panic!("no response"),
    }
}

/// The registry, the namespace, the place in the cache, and the URL and method of the
/// first request upstream.
fn served(method: &str, path: &str) -> (String, String, String, String, String) {
    let config = config();
    let plan = match handle_connection(&config, PathStyle::Unix, "cache", 10, method, path) {
        Task::Registry(plan) => plan,
        _ => panic!("not for a registry"),
    };
    let upstream = plan.upstream.unwrap();
    match plan.task {
        RegistryTask::Serve { cache_path, mut exchange } => match exchange.step(Event::Found(None)) {
            Action::Ask(request) => (
                upstream.host.name.clone(),
                upstream.namespace,
                format!("{}/{}", cache_path.base, cache_path.parts.join("/")),
                request.url,
                request.method,
            ),
            _ => panic!("nothing asked"),
        },
        RegistryTask::Respond(_) => panic!("not served"),
    }
}

fn row(a: &str, b: &str, c: &str, d: &str, e: &str) -> (String, String, String, String, String) {
    (a.to_string(), b.to_string(), c.to_string(), d.to_string(), e.to_string())
}

#[test]
fn the_health_check_says_ok() {
    assert_eq!(responded("GET", "/health"), plain("200 OK", "ok\n"));
}

#[test]
fn other_methods_are_not_found() {
    for method in ["PUT", "POST", "DELETE", "PATCH", "", "get"] {
        assert_eq!(responded(method, "/v2/a/manifests/b"), plain("404 Not Found", "not found\n"));
    }
}

#[test]
fn a_tunnel_needs_a_port() {
    assert_eq!(
        responded("CONNECT", "example.com"),
        plain("400 Bad Request", "CONNECT target must include a port\n")
    );
    assert!(matches!(
        handle_connection(&config(), PathStyle::Unix, "cache", 10, "CONNECT", "example.com:443"),
        Task::Tunnel { target: "example.com:443" }
    ));
    assert_eq!(text(tunnel_connect(true)), "HTTP/1.1 200 Connection Established\r\n\r\n");
    assert_eq!(
        text(tunnel_connect(false)),
        plain("502 Bad Gateway", "upstream connect failed\n")
    );
}

#[test]
fn the_page_and_its_buttons_have_their_paths() {
    assert!(matches!(handle_connection(&config(), PathStyle::Unix, "cache", 10, "GET", "/ui"), Task::List));
    assert!(matches!(handle_connection(&config(), PathStyle::Unix, "cache", 10, "GET", "/"), Task::List));
    assert!(matches!(
        handle_connection(&config(), PathStyle::Unix, "cache", 10, "POST", "/ui/delete?id=a"),
        Task::Delete(DeletePlan::Look { entry_path }) if entry_path.base == "cache" && entry_path.parts == ["a"]
    ));
}

#[test]
fn a_ping_is_answered() {
    for method in ["GET", "HEAD"] {
        assert_eq!(
            responded(method, "/v2/"),
            "HTTP/1.1 200 OK\r\nDocker-Distribution-Api-Version: registry/2.0\r\nContent-Type: application/json\r\nContent-Length: 0\r\nConnection: close\r\n\r\n"
        );
    }
}

#[test]
fn plain_pulls_go_to_docker_hub() {
    assert_eq!(
        served("GET", "/v2/library/nginx/manifests/latest"),
        row(
            "dockerhub",
            "docker.io",
            "cache/dockerhub/manifests/library/nginx/latest",
            "https://registry-1.docker.io/v2/library/nginx/manifests/latest",
            "GET"
        )
    );
    assert_eq!(
        served("HEAD", "/v2/library/nginx/blobs/sha256:1"),
        row(
            "dockerhub",
            "docker.io",
            "cache/dockerhub/blobs/library/nginx/sha256_1",
            "https://registry-1.docker.io/v2/library/nginx/blobs/sha256:1",
            "HEAD"
        )
    );
}

#[test]
fn explicit_pulls_go_to_their_registry() {
    assert_eq!(
        served("HEAD", "/v2/gcr.io/google-samples/hello-app/manifests/1.0"),
        row(
            "google",
            "gcr.io",
            "cache/google/manifests/google-samples/hello-app/1.0",
            "https://gcr.io/v2/google-samples/hello-app/manifests/1.0",
            "GET"
        )
    );
    assert_eq!(
        served("GET", "/v2/quay/redhat/ubi8-minimal/manifests/latest"),
        row(
            "quay",
            "quay",
            "cache/quay/manifests/redhat/ubi8-minimal/latest",
            "https://quay.io/v2/redhat/ubi8-minimal/manifests/latest",
            "GET"
        )
    );
    assert_eq!(
        served("GET", "/v2/docker.io/library/nginx/manifests/latest").2,
        "cache/dockerhub/manifests/library/nginx/latest"
    );
}

#[test]
fn the_query_may_name_the_registry() {
    assert_eq!(
        served("GET", "/v2/redhat/ubi8-minimal/manifests/latest?ns=quay.io"),
        row(
            "quay",
            "quay.io",
            "cache/quay/manifests/redhat/ubi8-minimal/latest",
            "https://quay.io/v2/redhat/ubi8-minimal/manifests/latest",
            "GET"
        )
    );
}

#[test]
fn unknown_registries_are_refused() {
    let refusal = plain("502 Bad Gateway", "no matching upstream host configured\n");
    assert_eq!(responded("GET", "/v2/ghcr.io/a/b/manifests/c"), refusal);
    assert_eq!(responded("GET", "/v2/a/manifests/b?ns=ghcr.io"), refusal);
    assert_eq!(responded("HEAD", "/v2/?ns=ghcr.io"), refusal);
}

#[test]
fn other_paths_are_not_found() {
    let missing = plain("404 Not Found", "not found\n");
    for path in ["/v2", "/v2/_catalog", "/v1/x", "/ui/", "/healthz", "", "/v2/x/tags/list?ns=ghcr.io"] {
        assert_eq!(responded("GET", path), missing, "{path}");
    }
    assert_eq!(responded("HEAD", "/health"), missing);
}

#[test]
fn get_and_head_share_an_entry() {
    for path in ["/v2/a/b/manifests/c", "/v2/a/b/blobs/c"] {
        assert_eq!(served("GET", path).2, served("HEAD", path).2);
    }
}

#[test]
fn a_cached_pull_needs_no_upstream() {
    let config = config();
    let plan = handle_registry_request(&config, "cache", 10, "GET", "/v2/a/manifests/b");
    match plan.task {
        RegistryTask::Serve { mut exchange, .. } => {
            let cached = CachedResponse {
                content_type: "a/b".to_string(),
                digest: None,
                body: b"x".to_vec(),
                age: Some(Age { secs: 10, nanos: 0 }),
            };
            match exchange.step(Event::Found(Some(cached))) {
                Action::Respond(bytes) => assert!(text(bytes).ends_with("\r\n\r\nx")),
                _ => panic!("not served from the cache"),
            }
        }
        RegistryTask::Respond(_) => panic!("not served"),
    }
}

#[test]
fn a_request_is_read_and_answered() {
    let config = config();
    let request = "GET /health HTTP/1.1\r\nHost: x\r\n\r\n";
    let (line, task) = handle_request(&config, PathStyle::Unix, "cache", 10, request);
    assert_eq!((line.method, line.path, line.version), ("GET", "/health", "HTTP/1.1"));
    assert!(matches!(task, Task::Respond(bytes) if text(bytes.clone()) == plain("200 OK", "ok\n")));
    let (line, task) = handle_request(&config, PathStyle::Unix, "cache", 10, "");
    assert_eq!((line.method, line.path, line.version), ("", "", ""));
    assert!(matches!(
        task,
        Task::Respond(bytes) if text(bytes.clone()) == plain("404 Not Found", "not found\n")
    ));
    let (_, task) = handle_request(&config, PathStyle::Unix, "cache", 10, "CONNECT a:1 HTTP/1.1\n");
    assert!(matches!(task, Task::Tunnel { target: "a:1" }));
}
