use dockerproxy::config::{
    as_text, effective_log_level, effective_ttl, host_summaries, host_summary, present_or_missing,
    Config, DockerHost, DEFAULT_LOG_LEVEL, DEFAULT_TTL,
};

fn host(username: Option<&str>, token: Option<&str>) -> DockerHost {
    DockerHost {
        name: "quay".to_string(),
        url: "https://quay.io".to_string(),
        username: username.map(str::to_string),
        token: token.map(str::to_string),
    }
}

fn config(ttl: Option<u64>, log_level: Option<u16>) -> Config {
    Config { hosts: vec![host(None, None), host(Some("u"), Some("t"))], ttl, log_level }
}

#[test]
fn the_command_line_wins_over_the_file() {
    assert_eq!(effective_ttl(Some(5), &config(Some(7), None)), 5);
    assert_eq!(effective_ttl(None, &config(Some(7), None)), 7);
    assert_eq!(effective_ttl(None, &config(None, None)), 31_557_600);
    assert_eq!(DEFAULT_TTL, 31_557_600);
    assert_eq!(effective_log_level(Some(0), &config(None, Some(2))), 0);
    assert_eq!(effective_log_level(None, &config(None, Some(2))), 2);
    assert_eq!(effective_log_level(None, &config(None, None)), DEFAULT_LOG_LEVEL);
    assert_eq!(DEFAULT_LOG_LEVEL, 0);
}

#[test]
fn credentials_are_present_or_missing() {
    assert_eq!(present_or_missing(Some("secret")), "present");
    assert_eq!(present_or_missing(None), "missing");
    assert_eq!(as_text(&Some("x".to_string())), Some("x"));
    assert_eq!(as_text(&None), None);
}

#[test]
fn the_startup_log_does_not_show_credentials() {
    assert_eq!(
        host_summary(&host(Some("alice"), Some("secret"))),
        "Configured host 'quay' at https://quay.io (username: present, token: present)"
    );
    assert_eq!(
        host_summary(&host(Some("alice"), None)),
        "Configured host 'quay' at https://quay.io (username: present, token: missing)"
    );
    assert_eq!(
        host_summary(&host(Some("alice"), Some("secret"))),
        host_summary(&host(Some("bob"), Some("other")))
    );
}

#[test]
fn registries_are_listed_from_level_one_on() {
    assert!(host_summaries(&config(None, None), 0).is_empty());
    assert_eq!(
        host_summaries(&config(None, None), 1),
        vec![
            "Configured host 'quay' at https://quay.io (username: missing, token: missing)",
            "Configured host 'quay' at https://quay.io (username: present, token: present)",
        ]
    );
}
