use dockerproxy::config::{Config, DockerHost};
use dockerproxy::request::{
    embedded_registry_namespace, normalize_embedded_namespace, parse_registry_request,
    parse_request_line, parse_request_target, route, RegistryRequest, Route,
};

fn host(name: &str, url: &str) -> DockerHost {
    DockerHost { name: name.to_string(), url: url.to_string(), username: None, token: None }
}

fn config() -> Config {
    Config {
        hosts: vec![
            host("dockerhub", "https://registry-1.docker.io"),
            host("google", "https://gcr.io"),
            host("quay", "https://quay.io"),
        ],
        ttl: None,
        log_level: None,
    }
}

fn normalized(path: &str) -> (String, Option<String>) {
    let mut target = parse_request_target(path);
    normalize_embedded_namespace(&config(), &mut target);
    (target.path, target.namespace)
}

fn pair(path: &str, namespace: Option<&str>) -> (String, Option<String>) {
    (path.to_string(), namespace.map(str::to_string))
}

#[test]
fn a_request_line_has_three_words() {
    let line = parse_request_line("GET /v2/ HTTP/1.1\r\nHost: localhost\r\n\r\n");
    assert_eq!((line.method, line.path, line.version), ("GET", "/v2/", "HTTP/1.1"));
    let line = parse_request_line("GET");
    assert_eq!((line.method, line.path, line.version), ("GET", "", ""));
    let line = parse_request_line("\r\nGET / HTTP/1.1");
    assert_eq!((line.method, line.path, line.version), ("", "", ""));
}

#[test]
fn requests_are_routed_by_method_and_path() {
    assert!(matches!(route("CONNECT", "x:443"), Route::Tunnel { target: "x:443" }));
    assert!(matches!(route("GET", "/health"), Route::Health));
    assert!(matches!(route("GET", "/"), Route::Ui));
    assert!(matches!(route("GET", "/ui"), Route::Ui));
    assert!(matches!(
        route("POST", "/ui/delete?id=a"),
        Route::Delete { path: "/ui/delete?id=a" }
    ));
    assert!(matches!(
        route("HEAD", "/health"),
        Route::Registry { method: "HEAD", path: "/health" }
    ));
    assert!(matches!(route("GET", "/v2/"), Route::Registry { method: "GET", path: "/v2/" }));
    assert!(matches!(route("POST", "/v2/"), Route::NotFound));
    assert!(matches!(route("PUT", "/v2/x/manifests/y"), Route::NotFound));
    assert!(matches!(route("get", "/health"), Route::NotFound));
    assert!(matches!(route("", ""), Route::NotFound));
}

#[test]
fn the_query_gives_the_namespace() {
    let target = parse_request_target("/v2/x/manifests/y?ns=gcr.io");
    assert_eq!(target.path, "/v2/x/manifests/y");
    assert_eq!(target.namespace.as_deref(), Some("gcr.io"));
    let target = parse_request_target("/v2/x/manifests/y?a=b&ns=&ns=z");
    assert_eq!(target.namespace.as_deref(), Some(""));
    let target = parse_request_target("/v2/?x");
    assert_eq!((target.path.as_str(), target.namespace), ("/v2/", None));
    let target = parse_request_target("/v2/");
    assert_eq!((target.path.as_str(), target.namespace), ("/v2/", None));
}

#[test]
fn a_namespace_is_taken_out_of_the_path() {
    assert_eq!(
        normalized("/v2/gcr.io/google-samples/hello-app/manifests/1.0"),
        pair("/v2/google-samples/hello-app/manifests/1.0", Some("gcr.io"))
    );
    assert_eq!(
        normalized("/v2/quay/redhat/ubi8-minimal/manifests/latest"),
        pair("/v2/redhat/ubi8-minimal/manifests/latest", Some("quay"))
    );
    assert_eq!(
        normalized("/v2/docker.io/library/nginx/manifests/latest"),
        pair("/v2/library/nginx/manifests/latest", Some("docker.io"))
    );
    assert_eq!(
        normalized("/v2/localhost/a/manifests/b"),
        pair("/v2/a/manifests/b", Some("localhost"))
    );
    assert_eq!(
        normalized("/v2/host:5000/a/manifests/b"),
        pair("/v2/a/manifests/b", Some("host:5000"))
    );
}

#[test]
fn other_paths_stay_as_they_are() {
    for path in [
        "/v2/library/nginx/manifests/latest",
        "/v2/dockerhub/library/nginx/manifests/latest",
        "/v2/gcr.io",
        "/v2/",
        "/v1/gcr.io/x",
    ] {
        assert_eq!(normalized(path), pair(path, None));
    }
    assert_eq!(
        normalized("/v2/gcr.io/x/manifests/y?ns=quay.io"),
        pair("/v2/gcr.io/x/manifests/y", Some("quay.io"))
    );
}

#[test]
fn a_namespace_put_back_gives_the_path() {
    for path in ["/v2/gcr.io/a/manifests/b", "/v2/google/a/blobs/b", "/v2/x.y//manifests/"] {
        let (rewritten, namespace) = normalized(path);
        let rest = rewritten.strip_prefix("/v2/").unwrap();
        assert_eq!(format!("/v2/{}/{rest}", namespace.unwrap()), path);
    }
}

#[test]
fn a_host_name_has_a_dot_or_a_colon() {
    assert_eq!(embedded_registry_namespace("/v2/a.b/c/d"), Some(("a.b", "c/d")));
    assert_eq!(embedded_registry_namespace("/v2/a:1/c"), Some(("a:1", "c")));
    assert_eq!(embedded_registry_namespace("/v2/localhost/c"), Some(("localhost", "c")));
    assert_eq!(embedded_registry_namespace("/v2/library/c.d"), None);
    assert_eq!(embedded_registry_namespace("/v2/a.b"), None);
    assert_eq!(embedded_registry_namespace("/a.b/c"), None);
}

#[test]
fn paths_ask_for_manifests_and_blobs() {
    assert!(matches!(parse_registry_request("/v2/"), Some(RegistryRequest::Ping)));
    assert!(matches!(
        parse_registry_request("/v2/library/nginx/manifests/latest"),
        Some(RegistryRequest::Manifest { name: "library/nginx", reference: "latest" })
    ));
    assert!(matches!(
        parse_registry_request("/v2/library/nginx/blobs/sha256:abc"),
        Some(RegistryRequest::Blob { name: "library/nginx", digest: "sha256:abc" })
    ));
    assert!(matches!(
        parse_registry_request("/v2/a/blobs/b/manifests/c"),
        Some(RegistryRequest::Manifest { name: "a/blobs/b", reference: "c" })
    ));
    assert!(matches!(
        parse_registry_request("/v2/a/manifests/b/manifests/c"),
        Some(RegistryRequest::Manifest { name: "a", reference: "b/manifests/c" })
    ));
    assert!(parse_registry_request("/v2/a/tags/list").is_none());
    assert!(parse_registry_request("/v2").is_none());
    assert!(parse_registry_request("/v2/manifests/x").is_none());
    assert!(parse_registry_request("").is_none());
}
