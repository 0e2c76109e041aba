//! What the proxy is told at startup: the upstream registries and the settings.

use vstd::prelude::*;

use crate::text::{opt_string_view, opt_view};

verus! {

/// An upstream registry.
#[derive(Debug)]
pub struct DockerHost {
    pub name: String,
    pub url: String,
    pub username: Option<String>,
    pub token: Option<String>,
}

/// The configuration file.
#[derive(Debug)]
pub struct Config {
    pub hosts: Vec<DockerHost>,
    pub ttl: Option<u64>,
    pub log_level: Option<u16>,
}

/// What an upstream registry is made of.
#[verifier::ext_equal]
pub struct HostView {
    pub name: Seq<char>,
    pub url: Seq<char>,
    pub username: Option<Seq<char>>,
    pub token: Option<Seq<char>>,
}

impl View for DockerHost {
    type V = HostView;

    open spec fn view(&self) -> HostView {
        HostView {
            name: self.name@,
            url: self.url@,
            username: opt_string_view(self.username),
            token: opt_string_view(self.token),
        }
    }
}

impl HostView {
    /// The user name and token to present, if both are there.
    pub open spec fn credentials(self) -> Option<(Seq<char>, Seq<char>)> {
        match (self.username, self.token) {
            (Some(username), Some(token)) => Some((username, token)),
            _ => None,
        }
    }
}

impl Config {
    /// The registries, in order.
    pub open spec fn hosts_view(self) -> Seq<HostView> {
        self.hosts@.map_values(|host: DockerHost| host@)
    }
}

/// How long an entry is kept, in seconds, unless something else is asked for: a year.
pub const DEFAULT_TTL: u64 = 31_557_600;

/// How much is logged unless something else is asked for: little.
pub const DEFAULT_LOG_LEVEL: u16 = 0;

/// How long entries are kept: what the command line asks for, else what the
/// configuration asks for, else `DEFAULT_TTL`.
pub fn effective_ttl(requested: Option<u64>, config: &Config) -> (ttl: u64)
    ensures
        ttl == match (requested, config.ttl) {
            (Some(t), _) => t,
            (None, Some(t)) => t,
            (None, None) => DEFAULT_TTL,
        },
        requested is None && config.ttl is None ==> ttl == 31_557_600,
{
    match (requested, config.ttl) {
        (Some(t), _) => t,
        (None, Some(t)) => t,
        (None, None) => DEFAULT_TTL,
    }
}

/// How much is logged: what the command line asks for, else what the configuration
/// asks for, else `DEFAULT_LOG_LEVEL`.
pub fn effective_log_level(requested: Option<u16>, config: &Config) -> (level: u16)
    ensures
        level == match (requested, config.log_level) {
            (Some(l), _) => l,
            (None, Some(l)) => l,
            (None, None) => DEFAULT_LOG_LEVEL,
        },
        requested is None && config.log_level is None ==> level == 0,
{
    match (requested, config.log_level) {
        (Some(l), _) => l,
        (None, Some(l)) => l,
        (None, None) => DEFAULT_LOG_LEVEL,
    }
}

/// Whether a value is there, in a word.
pub open spec fn presence(present: bool) -> Seq<char> {
    if present {
        "present"@
    } else {
        "missing"@
    }
}

/// Whether a value is there, in a word.
pub fn present_or_missing(value: Option<&str>) -> (r: &'static str)
    ensures
        r@ == presence(value is Some),
{
    if value.is_some() {
        "present"
    } else {
        "missing"
    }
}

/// The line about a registry in the startup log.
pub open spec fn summary(host: HostView) -> Seq<char> {
    "Configured host '"@ + host.name + "' at "@ + host.url + " (username: "@ + presence(
        host.username is Some,
    ) + ", token: "@ + presence(host.token is Some) + ")"@
}

/// The line about a registry in the startup log, which says of the credentials only
/// whether they are there.
pub fn host_summary(host: &DockerHost) -> (r: String)
    ensures
        r@ == summary(host@),
{
    let mut line = String::new();
    line.append("Configured host '");
    line.append(host.name.as_str());
    line.append("' at ");
    line.append(host.url.as_str());
    line.append(" (username: ");
    line.append(present_or_missing(as_text(&host.username)));
    line.append(", token: ");
    line.append(present_or_missing(as_text(&host.token)));
    line.append(")");
    assert(Seq::<char>::empty() + "Configured host '"@ =~= "Configured host '"@);
    line
}

/// A borrowed view of an optional string.
pub fn as_text(value: &Option<String>) -> (r: Option<&str>)
    ensures
        opt_view(r) == opt_string_view(*value),
{
    match value {
        Some(text) => Some(text.as_str()),
        None => None,
    }
}

/// The lines about the registries in the startup log: none at level 0, else one for
/// each registry, in order.
pub fn host_summaries(config: &Config, log_level: u16) -> (r: Vec<String>)
    ensures
        log_level == 0 ==> r@.len() == 0,
        log_level >= 1 ==> r@.len() == config.hosts@.len() && forall|i: int|
            0 <= i < r@.len() ==> (#[trigger] r@[i])@ == summary(config.hosts@[i]@),
{
    let mut lines: Vec<String> = Vec::new();
    if log_level >= 1 {
        let n: usize = config.hosts.len();
        for i in 0..n
            invariant
                n == config.hosts@.len(),
                lines@.len() == i,
                forall|j: int| 0 <= j < i ==> (#[trigger] lines@[j])@ == summary(config.hosts@[j]@),
        {
            lines.push(host_summary(&config.hosts[i]));
        }
    }
    lines
}

/// What is logged about a registry does not depend on what its user name and token
/// are, only on whether they are there.
pub proof fn law_credentials_are_not_logged(a: HostView, b: HostView)
    requires
        a.name == b.name,
        a.url == b.url,
        a.username is Some == b.username is Some,
        a.token is Some == b.token is Some,
    ensures
        summary(a) == summary(b),
{
}

/// Every registry of the configuration counts, in order, with all that is said of it.
pub proof fn law_every_registry_counts(config: Config, i: int)
    requires
        0 <= i < config.hosts@.len(),
    ensures
        config.hosts_view().len() == config.hosts@.len(),
        config.hosts_view()[i].name == config.hosts@[i].name@,
        config.hosts_view()[i].url == config.hosts@[i].url@,
        config.hosts_view()[i].username == opt_string_view(config.hosts@[i].username),
        config.hosts_view()[i].token == opt_string_view(config.hosts@[i].token),
{
}

/// What is logged about a registry is its name, its URL, and for each of the credentials
/// one of two words.
pub proof fn law_summary_shows_name_and_url(host: HostView)
    ensures
        summary(host) == "Configured host '"@ + host.name + "' at "@ + host.url + " (username: "@ + (
        if host.username is Some {
            "present"@
        } else {
            "missing"@
        }) + ", token: "@ + (if host.token is Some {
            "present"@
        } else {
            "missing"@
        }) + ")"@,
        presence(true) == "present"@,
        presence(false) == "missing"@,
{
}

} // verus!
