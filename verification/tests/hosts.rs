use dockerproxy::config::{Config, DockerHost};
use dockerproxy::hosts::{
    dockerhub_host, host_matches_namespace, host_namespaces, registry_hostname, upstream_host,
};

fn host(name: &str, url: &str) -> DockerHost {
    DockerHost { name: name.to_string(), url: url.to_string(), username: None, token: None }
}

fn config(hosts: Vec<DockerHost>) -> Config {
    Config { hosts, ttl: None, log_level: None }
}

fn usual() -> Config {
    config(vec![
        host("google", "https://gcr.io"),
        host("dockerhub", "https://registry-1.docker.io"),
        host("quay", "https://quay.io"),
        host("internal", "http://registry.example.com:5000/base"),
    ])
}

fn chosen<'a>(config: &'a Config, namespace: Option<&str>) -> Option<&'a str> {
    upstream_host(config, namespace).map(|host| host.name.as_str())
}

#[test]
fn the_host_name_is_taken_out_of_the_url() {
    assert_eq!(registry_hostname("https://gcr.io"), Some("gcr.io"));
    assert_eq!(registry_hostname("http://localhost:5000/v2"), Some("localhost"));
    assert_eq!(registry_hostname("quay.io/x"), Some("quay.io"));
    assert_eq!(registry_hostname("ftp://quay.io"), Some("ftp"));
    assert_eq!(registry_hostname("https://http://x"), Some("http"));
    assert_eq!(registry_hostname(""), Some(""));
}

#[test]
fn a_registry_has_its_name_and_its_host_name() {
    assert_eq!(host_namespaces(&host("google", "https://gcr.io")), vec!["google", "gcr.io"]);
    assert_eq!(host_namespaces(&host("gcr.io", "https://gcr.io")), vec!["gcr.io"]);
    assert!(host_matches_namespace(&host("google", "https://gcr.io"), "google"));
    assert!(host_matches_namespace(&host("google", "https://gcr.io"), "gcr.io"));
    assert!(!host_matches_namespace(&host("google", "https://gcr.io"), "gcr"));
}

#[test]
fn docker_hub_is_the_default() {
    assert_eq!(chosen(&usual(), None), Some("dockerhub"));
    assert_eq!(chosen(&usual(), Some("docker.io")), Some("dockerhub"));
    assert_eq!(chosen(&usual(), Some("registry-1.docker.io")), Some("dockerhub"));
}

#[test]
fn docker_hub_may_go_by_its_address() {
    let renamed = config(vec![
        host("google", "https://gcr.io"),
        host("hub", "https://registry-1.docker.io"),
    ]);
    assert_eq!(chosen(&renamed, None), Some("hub"));
    assert_eq!(dockerhub_host(&renamed).map(|host| host.name.as_str()), Some("hub"));
    let both = config(vec![
        host("hub", "https://registry-1.docker.io"),
        host("dockerhub", "https://mirror.example.com"),
    ]);
    assert_eq!(chosen(&both, None), Some("dockerhub"));
    assert_eq!(chosen(&config(vec![host("google", "https://gcr.io")]), None), None);
}

#[test]
fn other_registries_go_by_name_or_host_name() {
    assert_eq!(chosen(&usual(), Some("google")), Some("google"));
    assert_eq!(chosen(&usual(), Some("gcr.io")), Some("google"));
    assert_eq!(chosen(&usual(), Some("quay.io")), Some("quay"));
    assert_eq!(chosen(&usual(), Some("registry.example.com")), Some("internal"));
    assert_eq!(chosen(&usual(), Some("ghcr.io")), None);
}
