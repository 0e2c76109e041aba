//! Which upstream registry a request goes to.

use vstd::prelude::*;

use crate::config::{Config, DockerHost, HostView};
use crate::text::{
    after_prefix, before_char, contains_text, has_text, law_prefix_comes_off,
    law_text_before_first, opt_view, same_text, strip_prefix, text_before, views,
};

verus! {

// ---------------------------------------------------------------------------
// The names a registry goes by
// ---------------------------------------------------------------------------

/// A URL without its scheme.
pub open spec fn without_scheme(url: Seq<char>) -> Seq<char> {
    match strip_prefix(url, "https://"@) {
        Some(rest) => rest,
        None => match strip_prefix(url, "http://"@) {
            Some(rest) => rest,
            None => url,
        },
    }
}

/// The host name in a URL: what stands between the scheme and the first slash,
/// without the port.
pub open spec fn hostname(url: Seq<char>) -> Seq<char> {
    before_char(before_char(without_scheme(url), '/'), ':')
}

/// The host name in a URL.
pub fn registry_hostname(url: &str) -> (r: Option<&str>)
    ensures
        opt_view(r) == Some(hostname(url@)),
{
    let rest = match after_prefix(url, "https://") {
        Some(rest) => rest,
        None => match after_prefix(url, "http://") {
            Some(rest) => rest,
            None => url,
        },
    };
    Some(text_before(text_before(rest, '/'), ':'))
}

/// The namespaces under which a registry is reached: its name, and the host name of
/// its URL if that is another.
pub open spec fn namespaces(host: HostView) -> Seq<Seq<char>> {
    if hostname(host.url) == host.name {
        seq![host.name]
    } else {
        seq![host.name, hostname(host.url)]
    }
}

/// The namespaces under which a registry is reached.
pub fn host_namespaces(host: &DockerHost) -> (r: Vec<&str>)
    ensures
        views(r@) == namespaces(host@),
{
    let mut found: Vec<&str> = Vec::new();
    found.push(host.name.as_str());
    if let Some(name) = registry_hostname(host.url.as_str()) {
        if !same_text(name, host.name.as_str()) {
            found.push(name);
        }
    }
    assert(views(found@) =~= namespaces(host@));
    found
}

/// Whether a registry goes by a namespace: its name or the host name of its URL.
pub open spec fn goes_by(host: HostView, namespace: Seq<char>) -> bool {
    host.name == namespace || hostname(host.url) == namespace
}

/// Whether a registry goes by a namespace.
pub fn host_matches_namespace(host: &DockerHost, namespace: &str) -> (r: bool)
    ensures
        r == goes_by(host@, namespace@),
{
    if same_text(host.name.as_str(), namespace) {
        return true;
    }
    match registry_hostname(host.url.as_str()) {
        Some(name) => same_text(name, namespace),
        None => false,
    }
}

// ---------------------------------------------------------------------------
// Choosing one
// ---------------------------------------------------------------------------

/// The first registry from position `from` on that has a property.
pub open spec fn first_host_from(
    hosts: Seq<HostView>,
    wanted: spec_fn(HostView) -> bool,
    from: int,
) -> Option<int>
    decreases hosts.len() - from,
{
    if from < 0 || from >= hosts.len() {
        None
    } else if wanted(hosts[from]) {
        Some(from)
    } else {
        first_host_from(hosts, wanted, from + 1)
    }
}

/// The property of being named after Docker Hub.
pub open spec fn named_dockerhub() -> spec_fn(HostView) -> bool {
    |host: HostView| host.name == "dockerhub"@
}

/// The property of having the address of Docker Hub in the URL.
pub open spec fn at_dockerhub() -> spec_fn(HostView) -> bool {
    |host: HostView| has_text(host.url, "registry-1.docker.io"@)
}

/// The property of going by `namespace`.
pub open spec fn going_by(namespace: Seq<char>) -> spec_fn(HostView) -> bool {
    |host: HostView| goes_by(host, namespace)
}

/// Docker Hub: the first registry of that name, else the first at its address.
pub open spec fn dockerhub_index(hosts: Seq<HostView>) -> Option<int> {
    match first_host_from(hosts, named_dockerhub(), 0) {
        Some(i) => Some(i),
        None => first_host_from(hosts, at_dockerhub(), 0),
    }
}

/// Whether a namespace is one of Docker Hub's own.
pub open spec fn is_dockerhub_namespace(namespace: Seq<char>) -> bool {
    namespace == "docker.io"@ || namespace == "registry-1.docker.io"@
}

/// The registry for a namespace: Docker Hub if none is given or it is one of Docker
/// Hub's, else the first registry that goes by it.
pub open spec fn upstream_index(hosts: Seq<HostView>, namespace: Option<Seq<char>>) -> Option<
    int,
> {
    match namespace {
        None => dockerhub_index(hosts),
        Some(name) => if is_dockerhub_namespace(name) {
            dockerhub_index(hosts)
        } else {
            first_host_from(hosts, going_by(name), 0)
        },
    }
}

/// Whether `r` is the registry at position `index`, or nothing if there is no position.
pub open spec fn is_host_at(r: Option<&DockerHost>, config: Config, index: Option<int>) -> bool {
    match (r, index) {
        (Some(host), Some(i)) => 0 <= i < config.hosts@.len() && *host == config.hosts@[i],
        (None, None) => true,
        _ => false,
    }
}

/// The registry that Docker Hub is reached through.
pub fn dockerhub_host(config: &Config) -> (r: Option<&DockerHost>)
    ensures
        is_host_at(r, *config, dockerhub_index(config.hosts_view())),
{
    let n: usize = config.hosts.len();
    let ghost hosts = config.hosts_view();
    for i in 0..n
        invariant
            n == config.hosts@.len(),
            hosts == config.hosts_view(),
            first_host_from(hosts, named_dockerhub(), 0) == first_host_from(
                hosts,
                named_dockerhub(),
                i as int,
            ),
    {
        if same_text(config.hosts[i].name.as_str(), "dockerhub") {
            return Some(&config.hosts[i]);
        }
    }
    for i in 0..n
        invariant
            n == config.hosts@.len(),
            hosts == config.hosts_view(),
            first_host_from(hosts, named_dockerhub(), 0) is None,
            first_host_from(hosts, at_dockerhub(), 0) == first_host_from(
                hosts,
                at_dockerhub(),
                i as int,
            ),
    {
        if contains_text(config.hosts[i].url.as_str(), "registry-1.docker.io") {
            return Some(&config.hosts[i]);
        }
    }
    None
}

/// The registry for a namespace.
pub fn upstream_host<'a>(config: &'a Config, namespace: Option<&str>) -> (r: Option<
    &'a DockerHost,
>)
    ensures
        is_host_at(r, *config, upstream_index(config.hosts_view(), opt_view(namespace))),
{
    let name = match namespace {
        Some(name) => name,
        None => {
            return dockerhub_host(config);
        },
    };
    if same_text(name, "docker.io") || same_text(name, "registry-1.docker.io") {
        return dockerhub_host(config);
    }
    let n: usize = config.hosts.len();
    let ghost hosts = config.hosts_view();
    for i in 0..n
        invariant
            n == config.hosts@.len(),
            hosts == config.hosts_view(),
            opt_view(namespace) == Some(name@),
            !is_dockerhub_namespace(name@),
            first_host_from(hosts, going_by(name@), 0) == first_host_from(
                hosts,
                going_by(name@),
                i as int,
            ),
    {
        if host_matches_namespace(&config.hosts[i], name) {
            return Some(&config.hosts[i]);
        }
    }
    None
}

// ---------------------------------------------------------------------------
// Laws
// ---------------------------------------------------------------------------

/// A search gives the first registry with the property, if there is any.
pub proof fn lemma_first_host(
    hosts: Seq<HostView>,
    wanted: spec_fn(HostView) -> bool,
    from: int,
)
    requires
        0 <= from,
    ensures
        match first_host_from(hosts, wanted, from) {
            Some(i) => {
                &&& from <= i < hosts.len()
                &&& wanted(hosts[i])
                &&& forall|j: int| from <= j < i ==> !wanted(#[trigger] hosts[j])
            },
            None => forall|j: int| from <= j < hosts.len() ==> !wanted(#[trigger] hosts[j]),
        },
    decreases hosts.len() - from,
{
    if from < hosts.len() && !wanted(hosts[from]) {
        lemma_first_host(hosts, wanted, from + 1);
    }
}

/// A request without a namespace goes where a request for Docker Hub goes: to the
/// registry named `dockerhub` if there is one.
pub proof fn law_docker_hub_is_the_default(hosts: Seq<HostView>, i: int)
    requires
        0 <= i < hosts.len(),
        hosts[i].name == "dockerhub"@,
        forall|j: int| 0 <= j < i ==> (#[trigger] hosts[j]).name != "dockerhub"@,
    ensures
        dockerhub_index(hosts) == Some(i),
        upstream_index(hosts, None) == Some(i),
        upstream_index(hosts, Some("docker.io"@)) == Some(i),
        upstream_index(hosts, Some("registry-1.docker.io"@)) == Some(i),
{
    lemma_first_host(hosts, named_dockerhub(), 0);
    let found = first_host_from(hosts, named_dockerhub(), 0);
    if found is None {
        assert(!named_dockerhub()(hosts[i]));
    } else if found->0 > i {
        assert(!named_dockerhub()(hosts[i]));
    } else if found->0 < i {
        assert(hosts[found->0].name != "dockerhub"@);
    }
}

/// A request for any other registry goes to the first one whose name or host name
/// matches, and nowhere if none does.
pub proof fn law_other_registries_match_by_name(hosts: Seq<HostView>, namespace: Seq<char>)
    requires
        !is_dockerhub_namespace(namespace),
    ensures
        match upstream_index(hosts, Some(namespace)) {
            Some(i) => {
                &&& 0 <= i < hosts.len()
                &&& goes_by(hosts[i], namespace)
                &&& forall|j: int| 0 <= j < i ==> !goes_by(#[trigger] hosts[j], namespace)
            },
            None => forall|j: int|
                0 <= j < hosts.len() ==> !goes_by(#[trigger] hosts[j], namespace),
        },
{
    lemma_first_host(hosts, going_by(namespace), 0);
    assert forall|j: int| 0 <= j < hosts.len() implies going_by(namespace)(#[trigger] hosts[j])
        == goes_by(hosts[j], namespace) by {}
}

/// Docker Hub has two namespaces of its own; a request for any other goes to the first
/// registry with that name or with that host name in its URL, and nowhere if there is none.
pub proof fn law_docker_hub_has_two_namespaces(hosts: Seq<HostView>, namespace: Seq<char>)
    requires
        namespace != "docker.io"@,
        namespace != "registry-1.docker.io"@,
    ensures
        !is_dockerhub_namespace(namespace),
        match upstream_index(hosts, Some(namespace)) {
            Some(i) => {
                &&& 0 <= i < hosts.len()
                &&& namespace == hosts[i].name || namespace == hostname(hosts[i].url)
                &&& forall|j: int|
                    0 <= j < i ==> namespace != (#[trigger] hosts[j]).name && namespace != hostname(
                        hosts[j].url,
                    )
            },
            None => forall|j: int|
                0 <= j < hosts.len() ==> namespace != (#[trigger] hosts[j]).name && namespace
                    != hostname(hosts[j].url),
        },
{
    law_other_registries_match_by_name(hosts, namespace);
    assert forall|j: int| 0 <= j < hosts.len() implies goes_by(#[trigger] hosts[j], namespace) == (
    namespace == hosts[j].name || namespace == hostname(hosts[j].url)) by {
        law_registry_has_two_names(hosts[j], namespace);
    }
}

/// What stands before both a slash and a colon stands before a slash or a colon that
/// follows it.
proof fn lemma_before_both(host: Seq<char>, rest: Seq<char>)
    requires
        !host.contains('/'),
        !host.contains(':'),
        rest.len() == 0 || rest[0] == '/' || rest[0] == ':',
    ensures
        before_char(before_char(host + rest, '/'), ':') == host,
{
    let s = host + rest;
    let n = host.len() as int;
    law_text_before_first(s, '/');
    let a = before_char(s, '/');
    if a.len() < n {
        assert(s[a.len() as int] == '/');
        assert(host.contains(host[a.len() as int]));
    }
    assert(a =~= s.take(a.len() as int));
    law_text_before_first(a, ':');
    let b = before_char(a, ':');
    assert(b =~= a.take(b.len() as int));
    if b.len() < n {
        assert(a[b.len() as int] == s[b.len() as int]);
        assert(host.contains(host[b.len() as int]));
    } else if b.len() > n {
        assert(b[n] == s[n]);
        assert(a.contains(a[n]) && b.contains(b[n]));
    }
    assert(b =~= host);
}

/// The host name in a URL is what stands between the scheme, if it is `https` or `http`, and
/// the first slash or colon after it.
pub proof fn law_host_name_in_url(host: Seq<char>, rest: Seq<char>)
    requires
        !host.contains('/'),
        !host.contains(':'),
        rest.len() == 0 || rest[0] == '/' || rest[0] == ':',
    ensures
        hostname("https://"@ + host + rest) == host,
        hostname("http://"@ + host + rest) == host,
        !"https://"@.is_prefix_of(host + rest) && !"http://"@.is_prefix_of(host + rest) ==> hostname(
            host + rest,
        ) == host,
{
    lemma_before_both(host, rest);
    let tail = host + rest;
    reveal_strlit("https://");
    reveal_strlit("http://");
    assert("https://"@ + host + rest =~= "https://"@ + tail);
    assert("http://"@ + host + rest =~= "http://"@ + tail);
    law_prefix_comes_off("https://"@, tail, tail);
    law_prefix_comes_off("http://"@, tail, tail);
    let plain = "http://"@ + tail;
    assert(!"https://"@.is_prefix_of(plain)) by {
        assert(plain[4] == ':');
        if "https://"@.is_prefix_of(plain) {
            assert("https://"@[4] == plain.subrange(0, 8)[4]);
        }
    }
}

/// A registry is reached under its name and under the host name of its URL, its name first,
/// and under nothing else.
pub proof fn law_registry_has_two_names(host: HostView, namespace: Seq<char>)
    ensures
        namespaces(host)[0] == host.name,
        namespaces(host).contains(namespace) <==> namespace == host.name || namespace == hostname(
            host.url,
        ),
        goes_by(host, namespace) <==> namespace == host.name || namespace == hostname(host.url),
        namespaces(host).len() <= 2,
{
    let names = namespaces(host);
    assert(names[0] == host.name);
    if hostname(host.url) != host.name {
        assert(names[1] == hostname(host.url));
    }
    if names.contains(namespace) {
        let k = names.index_of(namespace);
        assert(k == 0 || k == 1);
    }
}

/// Without a registry named `dockerhub`, Docker Hub is the first registry with the address of
/// Docker Hub in its URL; without one of these either, there is none. This is where
/// requests for no namespace, and for the two of Docker Hub itself, go.
pub proof fn law_docker_hub_by_address(hosts: Seq<HostView>, namespace: Option<Seq<char>>)
    requires
        namespace matches Some(name) ==> name == "docker.io"@ || name == "registry-1.docker.io"@,
        forall|j: int| 0 <= j < hosts.len() ==> (#[trigger] hosts[j]).name != "dockerhub"@,
    ensures
        dockerhub_index(hosts) == upstream_index(hosts, namespace),
        match upstream_index(hosts, namespace) {
            Some(i) => {
                &&& 0 <= i < hosts.len()
                &&& has_text(hosts[i].url, "registry-1.docker.io"@)
                &&& forall|j: int|
                    0 <= j < i ==> !has_text((#[trigger] hosts[j]).url, "registry-1.docker.io"@)
            },
            None => forall|j: int|
                0 <= j < hosts.len() ==> !has_text(
                    (#[trigger] hosts[j]).url,
                    "registry-1.docker.io"@,
                ),
        },
{
    lemma_first_host(hosts, named_dockerhub(), 0);
    lemma_first_host(hosts, at_dockerhub(), 0);
    if let Some(i) = first_host_from(hosts, named_dockerhub(), 0) {
        assert(hosts[i].name != "dockerhub"@);
    }
    assert forall|j: int| 0 <= j < hosts.len() implies at_dockerhub()(#[trigger] hosts[j])
        == has_text(hosts[j].url, "registry-1.docker.io"@) by {}
}

/// The registry at a position is the very one that the configuration has there; without a
/// position there is none.
pub proof fn law_registry_at_a_position(found: &DockerHost, config: Config, i: int)
    requires
        0 <= i < config.hosts@.len(),
    ensures
        is_host_at(Some(found), config, Some(i)) ==> found == config.hosts@[i],
        !is_host_at(None, config, Some(i)),
        !is_host_at(Some(found), config, None),
        is_host_at(None, config, None),
{
}

} // verus!
