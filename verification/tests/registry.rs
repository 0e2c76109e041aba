use dockerproxy::config::DockerHost;
use dockerproxy::registry::{
    fetch_bearer_token, fetch_method, host_credentials, parse_bearer_challenge, token_in_reply,
    token_request, upstream_request, Authorization, UNAUTHORIZED,
};
use reqwest::header::{HeaderMap, HeaderValue};

fn host(credentials: bool) -> DockerHost {
    DockerHost {
        name: "hub".to_string(),
        url: "https://registry-1.docker.io//".to_string(),
        username: Some("alice".to_string()),
        token: if credentials { Some("secret".to_string()) } else { None },
    }
}

const CHALLENGE: &str = "Bearer realm=\"https://auth.docker.io/token\",service=\"registry.docker.io\",scope=\"repository:library/nginx:pull\"";

#[test]
fn challenges_are_taken_apart() {
    assert_eq!(
        parse_bearer_challenge(CHALLENGE),
        Some(vec![
            ("realm", "https://auth.docker.io/token"),
            ("service", "registry.docker.io"),
            ("scope", "repository:library/nginx:pull"),
        ])
    );
    assert_eq!(
        parse_bearer_challenge("Bearer  realm = \"\"a=b\"\" , x=y"),
        Some(vec![("realm", "a=b"), ("x", "y")])
    );
    assert_eq!(parse_bearer_challenge("Bearer realm="), Some(vec![("realm", "")]));
}

#[test]
fn other_challenges_are_not_understood() {
    assert_eq!(parse_bearer_challenge("Basic realm=\"x\""), None);
    assert_eq!(parse_bearer_challenge("bearer realm=\"x\""), None);
    assert_eq!(parse_bearer_challenge("Bearer"), None);
    assert_eq!(parse_bearer_challenge("Bearer "), None);
    assert_eq!(parse_bearer_challenge("Bearer realm=\"x\","), None);
    assert_eq!(parse_bearer_challenge("Bearer realm=\"x\",scope=\"a,b\""), None);
}

#[test]
fn a_token_is_asked_for_at_the_realm() {
    let request = token_request(&host(true), CHALLENGE).unwrap();
    assert_eq!(request.realm, "https://auth.docker.io/token");
    assert_eq!(
        request.query,
        vec![
            ("service".to_string(), "registry.docker.io".to_string()),
            ("scope".to_string(), "repository:library/nginx:pull".to_string()),
        ]
    );
    let credentials = request.credentials.unwrap();
    assert_eq!((credentials.username.as_str(), credentials.token.as_str()), ("alice", "secret"));
    assert!(token_request(&host(false), CHALLENGE).unwrap().credentials.is_none());
}

#[test]
fn the_first_realm_counts_and_none_is_sent_along() {
    let request = token_request(&host(false), "Bearer realm=a,realm=b,x=1").unwrap();
    assert_eq!(request.realm, "a");
    assert_eq!(request.query, vec![("x".to_string(), "1".to_string())]);
    assert!(token_request(&host(false), "Bearer service=\"x\"").is_none());
    assert!(token_request(&host(false), "Basic realm=\"x\"").is_none());
}

#[test]
fn a_reply_has_its_token_in_one_of_two_fields() {
    let text = |s: &str| Some(s.to_string());
    assert_eq!(token_in_reply(text("a"), text("b")), text("a"));
    assert_eq!(token_in_reply(None, text("b")), text("b"));
    assert_eq!(token_in_reply(text("a"), None), text("a"));
    assert_eq!(token_in_reply(None, None), None);
}

#[test]
fn credentials_are_presented_until_there_is_a_token() {
    let request = upstream_request(&host(true), "GET", "/v2/x/manifests/y", None);
    assert_eq!(request.method, "GET");
    assert_eq!(request.url, "https://registry-1.docker.io/v2/x/manifests/y");
    assert_eq!(
        request.accept,
        "application/vnd.oci.image.index.v1+json, application/vnd.oci.image.manifest.v1+json, application/vnd.docker.distribution.manifest.list.v2+json, application/vnd.docker.distribution.manifest.v2+json, application/octet-stream"
    );
    assert!(matches!(
        request.authorization,
        Authorization::Basic(c) if c.username == "alice" && c.token == "secret"
    ));
    let request = upstream_request(&host(true), "HEAD", "/v2/", Some("tok"));
    assert_eq!(request.method, "HEAD");
    assert!(matches!(request.authorization, Authorization::Bearer(token) if token == "tok"));
    let request = upstream_request(&host(false), "GET", "/v2/", None);
    assert!(matches!(request.authorization, Authorization::Nothing));
    assert!(host_credentials(&host(true)).is_some());
    assert!(host_credentials(&host(false)).is_none());
}

#[test]
fn slashes_at_the_end_of_a_url_make_no_difference() {
    let mut plain = host(false);
    plain.url = "https://registry-1.docker.io".to_string();
    assert_eq!(
        upstream_request(&plain, "GET", "/v2/", None).url,
        upstream_request(&host(false), "GET", "/v2/", None).url
    );
}

#[test]
fn what_is_stored_is_fetched_whole() {
    assert_eq!(fetch_method("HEAD", true), Some("GET".to_string()));
    assert_eq!(fetch_method("HEAD", false), Some("HEAD".to_string()));
    assert_eq!(fetch_method("not a method", true), Some("GET".to_string()));
    assert_eq!(fetch_method("not a method", false), None);
}

#[test]
fn only_an_answer_that_asks_for_authorisation_is_answered() {
    let mut headers = HeaderMap::new();
    headers.insert("www-authenticate", HeaderValue::from_static(CHALLENGE));
    let request = fetch_bearer_token(&host(false), 401, &headers).unwrap();
    assert_eq!(request.realm, "https://auth.docker.io/token");
    assert_eq!(UNAUTHORIZED, 401);
    assert!(fetch_bearer_token(&host(false), 403, &headers).is_none());
    assert!(fetch_bearer_token(&host(false), 401, &HeaderMap::new()).is_none());
    headers.insert("www-authenticate", HeaderValue::from_static("Basic realm=\"x\""));
    assert!(fetch_bearer_token(&host(false), 401, &headers).is_none());
    headers.insert("www-authenticate", HeaderValue::from_bytes(b"Bearer realm=\xff").unwrap());
    assert!(fetch_bearer_token(&host(false), 401, &headers).is_none());
}
