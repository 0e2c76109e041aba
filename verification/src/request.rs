//! What a client asks for.

use vstd::prelude::*;

use crate::config::{Config, HostView};
use crate::encoding::{find_param, query_param};
use crate::hosts::{
    first_host_from, going_by, goes_by, host_namespaces, hostname, is_dockerhub_namespace,
    lemma_first_host, namespaces, upstream_index,
};
use crate::text::{
    after_prefix, begins_with, contains_char, first_line, first_line_of, first_words, has_text,
    law_prefix_comes_off, law_split_around, lemma_find_text_from, lemma_find_text_is,
    lemma_split_once_char, lemma_split_once_char_of, occurs_at, opt_string_view,
    same_text, split_once_around, split_once_at, split_once_char, split_once_text, strip_prefix,
    three_words, views,
};

verus! {

// ---------------------------------------------------------------------------
// The request line
// ---------------------------------------------------------------------------

/// The three words of a request line, each empty if it is missing.
pub struct RequestLine<'a> {
    pub method: &'a str,
    pub path: &'a str,
    pub version: &'a str,
}

/// The request line of a request: the first three words of its first line.
pub fn parse_request_line<'a>(request: &'a str) -> (r: RequestLine<'a>)
    ensures
        first_words(first_line(request@), 3) == seq![r.method@, r.path@, r.version@],
{
    let (method, path, version) = three_words(first_line_of(request));
    RequestLine { method, path, version }
}

/// Who answers a request.
pub enum Route<'a> {
    /// A tunnel to `target`.
    Tunnel { target: &'a str },
    /// The health check.
    Health,
    /// The page that lists the cache.
    Ui,
    /// The deletion of a cache entry.
    Delete { path: &'a str },
    /// The registry interface.
    Registry { method: &'a str, path: &'a str },
    /// Nobody.
    NotFound,
}

/// What a route is made of.
pub enum RouteView {
    Tunnel { target: Seq<char> },
    Health,
    Ui,
    Delete { path: Seq<char> },
    Registry { method: Seq<char>, path: Seq<char> },
    NotFound,
}

impl<'a> View for Route<'a> {
    type V = RouteView;

    open spec fn view(&self) -> RouteView {
        match self {
            Route::Tunnel { target } => RouteView::Tunnel { target: target@ },
            Route::Health => RouteView::Health,
            Route::Ui => RouteView::Ui,
            Route::Delete { path } => RouteView::Delete { path: path@ },
            Route::Registry { method, path } => RouteView::Registry {
                method: method@,
                path: path@,
            },
            Route::NotFound => RouteView::NotFound,
        }
    }
}

/// Who answers a request with this method and path.
pub open spec fn route_of(method: Seq<char>, path: Seq<char>) -> RouteView {
    if method == "CONNECT"@ {
        RouteView::Tunnel { target: path }
    } else if method == "GET"@ && path == "/health"@ {
        RouteView::Health
    } else if method == "GET"@ && (path == "/"@ || path == "/ui"@) {
        RouteView::Ui
    } else if method == "POST"@ && "/ui/delete"@.is_prefix_of(path) {
        RouteView::Delete { path }
    } else if method == "GET"@ || method == "HEAD"@ {
        RouteView::Registry { method, path }
    } else {
        RouteView::NotFound
    }
}

/// Who answers a request with this method and path.
pub fn route<'a>(method: &'a str, path: &'a str) -> (r: Route<'a>)
    ensures
        r@ == route_of(method@, path@),
{
    if same_text(method, "CONNECT") {
        return Route::Tunnel { target: path };
    }
    let get = same_text(method, "GET");
    if get && same_text(path, "/health") {
        Route::Health
    } else if get && (same_text(path, "/") || same_text(path, "/ui")) {
        Route::Ui
    } else if same_text(method, "POST") && begins_with(path, "/ui/delete") {
        Route::Delete { path }
    } else if get || same_text(method, "HEAD") {
        Route::Registry { method, path }
    } else {
        Route::NotFound
    }
}

// ---------------------------------------------------------------------------
// The target of a registry request
// ---------------------------------------------------------------------------

/// A path, and the namespace of the registry that it is meant for.
pub struct RequestTarget {
    pub path: String,
    pub namespace: Option<String>,
}

/// What a target is made of.
#[verifier::ext_equal]
pub struct TargetView {
    pub path: Seq<char>,
    pub namespace: Option<Seq<char>>,
}

impl View for RequestTarget {
    type V = TargetView;

    open spec fn view(&self) -> TargetView {
        TargetView { path: self.path@, namespace: opt_string_view(self.namespace) }
    }
}

/// The target that a path with its query names: the namespace is the value of the
/// parameter `ns`.
pub open spec fn target_of(path: Seq<char>) -> TargetView {
    match split_once_char(path, '?') {
        Some((before, query)) => TargetView {
            path: before,
            namespace: query_param(query, "ns"@),
        },
        None => TargetView { path, namespace: None },
    }
}

/// The target that a path with its query names.
pub fn parse_request_target(path: &str) -> (r: RequestTarget)
    ensures
        r@ == target_of(path@),
{
    match split_once_at(path, '?') {
        Some((before, query)) => RequestTarget {
            path: before.to_string(),
            namespace: find_param(query, "ns"),
        },
        None => RequestTarget { path: path.to_string(), namespace: None },
    }
}

/// What follows `/v2/<namespace>/` in a path.
pub open spec fn under_namespace(path: Seq<char>, namespace: Seq<char>) -> Option<Seq<char>> {
    strip_prefix(path, "/v2/"@ + namespace + "/"@)
}

/// The first of the given namespaces that `path` lies under.
pub open spec fn first_namespace(path: Seq<char>, names: Seq<Seq<char>>) -> Option<Seq<char>>
    decreases names.len(),
{
    if names.len() == 0 {
        None
    } else if under_namespace(path, names[0]) is Some {
        Some(names[0])
    } else {
        first_namespace(path, names.drop_first())
    }
}

/// The namespace of a configured registry that `path` lies under: that of the first
/// registry, `dockerhub` left out, with one.
pub open spec fn configured_namespace(hosts: Seq<HostView>, path: Seq<char>) -> Option<Seq<char>>
    decreases hosts.len(),
{
    if hosts.len() == 0 {
        None
    } else if hosts[0].name != "dockerhub"@ && first_namespace(path, namespaces(hosts[0])) is Some {
        first_namespace(path, namespaces(hosts[0]))
    } else {
        configured_namespace(hosts.drop_first(), path)
    }
}

/// Whether a path component has the form of a registry's host name: `localhost`, or
/// anything with a dot or a colon in it.
pub open spec fn looks_like_registry(component: Seq<char>) -> bool {
    component == "localhost"@ || component.contains('.') || component.contains(':')
}

/// The first component of a path under `/v2/` and what follows it, if that component
/// has the form of a registry's host name.
pub open spec fn embedded_namespace(path: Seq<char>) -> Option<(Seq<char>, Seq<char>)> {
    match strip_prefix(path, "/v2/"@) {
        Some(rest) => match split_once_char(rest, '/') {
            Some((component, rest)) => if looks_like_registry(component) {
                Some((component, rest))
            } else {
                None
            },
            None => None,
        },
        None => None,
    }
}

/// A target with the namespace taken out of its path, if it has none yet and the
/// path begins with one: a configured one, else one that looks like a host name.
pub open spec fn normalized(hosts: Seq<HostView>, target: TargetView) -> TargetView {
    if target.namespace is Some {
        target
    } else if let Some(name) = configured_namespace(hosts, target.path) {
        TargetView {
            path: "/v2/"@ + under_namespace(target.path, name)->0,
            namespace: Some(name),
        }
    } else if let Some((name, rest)) = embedded_namespace(target.path) {
        TargetView { path: "/v2/"@ + rest, namespace: Some(name) }
    } else {
        target
    }
}

/// The first component of a path under `/v2/` and what follows it, if that component
/// has the form of a registry's host name.
pub fn embedded_registry_namespace(path: &str) -> (r: Option<(&str, &str)>)
    ensures
        match r {
            Some((name, rest)) => embedded_namespace(path@) == Some((name@, rest@)),
            None => embedded_namespace(path@) is None,
        },
{
    let rest = match after_prefix(path, "/v2/") {
        Some(rest) => rest,
        None => {
            return None;
        },
    };
    match split_once_at(rest, '/') {
        Some((name, rest)) => {
            if same_text(name, "localhost") || contains_char(name, '.') || contains_char(name, ':') {
                Some((name, rest))
            } else {
                None
            }
        },
        None => None,
    }
}

/// The first of the given namespaces that `path` lies under, and what follows it.
fn find_namespace<'a>(path: &str, names: &Vec<&'a str>) -> (r: Option<(String, String)>)
    ensures
        match r {
            Some((name, rest)) => first_namespace(path@, views(names@)) == Some(name@)
                && under_namespace(path@, name@) == Some(rest@),
            None => first_namespace(path@, views(names@)) is None,
        },
{
    let n: usize = names.len();
    let ghost all = views(names@);
    assert(all.skip(0) =~= all);
    for i in 0..n
        invariant
            n == names@.len(),
            all == views(names@),
            first_namespace(path@, all) == first_namespace(path@, all.skip(i as int)),
    {
        assert(all.skip(i as int).drop_first() =~= all.skip(i + 1));
        assert(all.skip(i as int)[0] == names@[i as int]@);
        let prefix = "/v2/".to_string().concat(names[i]).concat("/");
        if let Some(rest) = after_prefix(path, prefix.as_str()) {
            return Some((names[i].to_string(), rest.to_string()));
        }
    }
    None
}

/// Takes the namespace out of the path of a target that has none yet.
pub fn normalize_embedded_namespace(config: &Config, target: &mut RequestTarget)
    ensures
        final(target)@ == normalized(config.hosts_view(), old(target)@),
{
    if target.namespace.is_some() {
        return;
    }
    let n: usize = config.hosts.len();
    let ghost hosts = config.hosts_view();
    let ghost start = target@;
    assert(hosts.skip(0) =~= hosts);
    for i in 0..n
        invariant
            n == config.hosts@.len(),
            hosts == config.hosts_view(),
            target@ == start,
            start == old(target)@,
            start.namespace is None,
            configured_namespace(hosts, start.path) == configured_namespace(
                hosts.skip(i as int),
                start.path,
            ),
    {
        assert(hosts.skip(i as int).drop_first() =~= hosts.skip(i + 1));
        assert(hosts.skip(i as int)[0] == config.hosts@[i as int]@);
        let host = &config.hosts[i];
        if !same_text(host.name.as_str(), "dockerhub") {
            let names = host_namespaces(host);
            if let Some((name, rest)) = find_namespace(target.path.as_str(), &names) {
                target.namespace = Some(name);
                target.path = "/v2/".to_string().concat(rest.as_str());
                return;
            }
        }
    }
    let found = match embedded_registry_namespace(target.path.as_str()) {
        Some((name, rest)) => Some((name.to_string(), "/v2/".to_string().concat(rest))),
        None => None,
    };
    if let Some((name, path)) = found {
        target.namespace = Some(name);
        target.path = path;
    }
}

// ---------------------------------------------------------------------------
// The request to a registry
// ---------------------------------------------------------------------------

/// What is asked of a registry.
pub enum RegistryRequest<'a> {
    Ping,
    Manifest { name: &'a str, reference: &'a str },
    Blob { name: &'a str, digest: &'a str },
}

/// What a registry request is made of.
pub enum RegistryRequestView {
    Ping,
    Manifest { name: Seq<char>, reference: Seq<char> },
    Blob { name: Seq<char>, digest: Seq<char> },
}

impl<'a> View for RegistryRequest<'a> {
    type V = RegistryRequestView;

    open spec fn view(&self) -> RegistryRequestView {
        match self {
            RegistryRequest::Ping => RegistryRequestView::Ping,
            RegistryRequest::Manifest { name, reference } => RegistryRequestView::Manifest {
                name: name@,
                reference: reference@,
            },
            RegistryRequest::Blob { name, digest } => RegistryRequestView::Blob {
                name: name@,
                digest: digest@,
            },
        }
    }
}

/// What a path asks of a registry: `/v2/` is a ping, `/v2/<name>/manifests/<reference>`
/// asks for a manifest, `/v2/<name>/blobs/<digest>` for a blob.
pub open spec fn registry_request_of(path: Seq<char>) -> Option<RegistryRequestView> {
    match strip_prefix(path, "/v2/"@) {
        None => None,
        Some(rest) => if rest.len() == 0 {
            Some(RegistryRequestView::Ping)
        } else {
            match split_once_text(rest, "/manifests/"@) {
                Some((name, reference)) => Some(RegistryRequestView::Manifest { name, reference }),
                None => match split_once_text(rest, "/blobs/"@) {
                    Some((name, digest)) => Some(RegistryRequestView::Blob { name, digest }),
                    None => None,
                },
            }
        },
    }
}

/// What a path asks of a registry.
pub fn parse_registry_request(path: &str) -> (r: Option<RegistryRequest<'_>>)
    ensures
        match r {
            Some(request) => registry_request_of(path@) == Some(request@),
            None => registry_request_of(path@) is None,
        },
{
    let rest = match after_prefix(path, "/v2/") {
        Some(rest) => rest,
        None => {
            return None;
        },
    };
    if rest.is_empty() {
        return Some(RegistryRequest::Ping);
    }
    if let Some((name, reference)) = split_once_around(rest, "/manifests/") {
        return Some(RegistryRequest::Manifest { name, reference });
    }
    if let Some((name, digest)) = split_once_around(rest, "/blobs/") {
        return Some(RegistryRequest::Blob { name, digest });
    }
    None
}

// ---------------------------------------------------------------------------
// Laws
// ---------------------------------------------------------------------------

/// A target whose namespace was given stays as it is, whatever its path.
pub proof fn law_given_namespace_is_kept(hosts: Seq<HostView>, target: TargetView)
    requires
        target.namespace is Some,
    ensures
        normalized(hosts, target) == target,
{
}

/// A namespace that was found is a namespace that the path lies under.
proof fn lemma_first_namespace(path: Seq<char>, names: Seq<Seq<char>>)
    ensures
        first_namespace(path, names) matches Some(name) ==> under_namespace(path, name) is Some,
    decreases names.len(),
{
    if names.len() > 0 && under_namespace(path, names[0]) is None {
        lemma_first_namespace(path, names.drop_first());
    }
}

/// A configured namespace that was found is a namespace that the path lies under.
proof fn lemma_configured_namespace(hosts: Seq<HostView>, path: Seq<char>)
    ensures
        configured_namespace(hosts, path) matches Some(name) ==> under_namespace(path, name) is Some,
    decreases hosts.len(),
{
    if hosts.len() > 0 {
        lemma_first_namespace(path, namespaces(hosts[0]));
        lemma_configured_namespace(hosts.drop_first(), path);
    }
}

/// Whether `after` is `before` with the namespace `name` taken out, `rest` being what
/// follows the namespace.
pub open spec fn takes_out(
    before: Seq<char>,
    name: Seq<char>,
    rest: Seq<char>,
    after: Seq<char>,
) -> bool {
    before == "/v2/"@ + name + "/"@ + rest && after == "/v2/"@ + rest
}

/// Taking the namespace out of a path loses nothing: put back in, it gives the path
/// that was asked for. A target in which none is found stays as it is.
pub proof fn law_rewriting_loses_nothing(hosts: Seq<HostView>, path: Seq<char>)
    ensures
        normalized(hosts, TargetView { path, namespace: None }).namespace matches Some(name)
            ==> exists|rest: Seq<char>|
            takes_out(
                path,
                name,
                rest,
                normalized(hosts, TargetView { path, namespace: None }).path,
            ),
        normalized(hosts, TargetView { path, namespace: None }).namespace is None ==> normalized(
            hosts,
            TargetView { path, namespace: None },
        ).path == path,
{
    let after = normalized(hosts, TargetView { path, namespace: None });
    lemma_configured_namespace(hosts, path);
    if let Some(name) = configured_namespace(hosts, path) {
        let rest = under_namespace(path, name)->0;
        assert(path =~= "/v2/"@ + name + "/"@ + rest);
        assert(after.namespace->0 =~= name);
        assert(takes_out(path, name, rest, after.path));
    } else if let Some((name, rest)) = embedded_namespace(path) {
        let tail = strip_prefix(path, "/v2/"@)->0;
        lemma_split_once_char(tail, '/');
        reveal_strlit("/");
        assert("/"@ =~= seq!['/']);
        assert(path =~= "/v2/"@ + tail);
        assert(path =~= "/v2/"@ + name + "/"@ + rest);
        assert(after.namespace->0 =~= name);
        assert(takes_out(path, name, rest, after.path));
    } else {
        assert(after.namespace is None);
        assert(after.path == path);
    }
}

/// A path under the namespace of a configured registry, `dockerhub` left out, reaches
/// that registry, with the namespace taken out of it: `i` is the first registry that
/// the path lies under, and the first that goes by the namespace.
pub proof fn law_explicit_registry_is_reached(
    hosts: Seq<HostView>,
    i: int,
    name: Seq<char>,
    rest: Seq<char>,
)
    requires
        0 <= i < hosts.len(),
        hosts[i].name != "dockerhub"@,
        name == hosts[i].name || (name == hostname(hosts[i].url) && under_namespace(
            "/v2/"@ + name + "/"@ + rest,
            hosts[i].name,
        ) is None),
        forall|j: int|
            0 <= j < i ==> (#[trigger] hosts[j]).name == "dockerhub"@ || first_namespace(
                "/v2/"@ + name + "/"@ + rest,
                namespaces(hosts[j]),
            ) is None,
        !is_dockerhub_namespace(name),
        forall|j: int| 0 <= j < i ==> !goes_by(#[trigger] hosts[j], name),
    ensures
        normalized(hosts, TargetView { path: "/v2/"@ + name + "/"@ + rest, namespace: None })
            == (TargetView { path: "/v2/"@ + rest, namespace: Some(name) }),
        upstream_index(hosts, Some(name)) == Some(i),
{
    let path = "/v2/"@ + name + "/"@ + rest;
    assert(("/v2/"@ + name + "/"@).is_prefix_of(path));
    assert(path.skip(("/v2/"@ + name + "/"@).len() as int) =~= rest);
    assert(under_namespace(path, name) == Some(rest));
    let names = namespaces(hosts[i]);
    assert(first_namespace(path, names) == Some(name)) by {
        reveal_with_fuel(first_namespace, 3);
        if name != hosts[i].name {
            assert(names.drop_first()[0] == name);
        }
    }
    lemma_configured_at(hosts, path, i, name);
    lemma_first_host(hosts, going_by(name), 0);
    assert(going_by(name)(hosts[i]));
    let found = first_host_from(hosts, going_by(name), 0);
    if found is None || found->0 > i {
        assert(!going_by(name)(hosts[i]));
    } else if found->0 < i {
        assert(!goes_by(hosts[found->0], name));
    }
}

/// The configured namespace is that of the first registry that the path lies under.
proof fn lemma_configured_at(hosts: Seq<HostView>, path: Seq<char>, i: int, name: Seq<char>)
    requires
        0 <= i < hosts.len(),
        hosts[i].name != "dockerhub"@,
        first_namespace(path, namespaces(hosts[i])) == Some(name),
        forall|j: int|
            0 <= j < i ==> (#[trigger] hosts[j]).name == "dockerhub"@ || first_namespace(
                path,
                namespaces(hosts[j]),
            ) is None,
    ensures
        configured_namespace(hosts, path) == Some(name),
    decreases hosts.len(),
{
    if i > 0 {
        assert(hosts[0].name == "dockerhub"@ || first_namespace(path, namespaces(hosts[0])) is None);
        let tail = hosts.drop_first();
        assert forall|j: int| 0 <= j < i - 1 implies (#[trigger] tail[j]).name == "dockerhub"@
            || first_namespace(path, namespaces(tail[j])) is None by {
            assert(tail[j] == hosts[j + 1]);
        }
        lemma_configured_at(tail, path, i - 1, name);
    }
}

/// The path of a manifest asks for that manifest, unless a component of the repository's
/// name after the first is `manifests`.
pub proof fn law_manifest_path(name: Seq<char>, reference: Seq<char>)
    requires
        !has_text(name.push('/'), "/manifests/"@),
    ensures
        registry_request_of("/v2/"@ + name + "/manifests/"@ + reference) == Some(
            RegistryRequestView::Manifest { name, reference },
        ),
{
    let path = "/v2/"@ + name + "/manifests/"@ + reference;
    let rest = name + "/manifests/"@ + reference;
    reveal_strlit("/manifests/");
    assert("/v2/"@.is_prefix_of(path));
    assert(path.skip("/v2/"@.len() as int) =~= rest);
    let word = seq!['m', 'a', 'n', 'i', 'f', 'e', 's', 't', 's'];
    assert("/manifests/"@ =~= seq!['/'] + word + seq!['/']);
    lemma_split_at_marker(name, word, reference);
}

/// The path of a blob asks for that blob, unless a component of the repository's name
/// after the first is `blobs`, or the path is one of a manifest.
pub proof fn law_blob_path(name: Seq<char>, digest: Seq<char>)
    requires
        !has_text(name.push('/'), "/blobs/"@),
        !has_text(name + "/blobs/"@ + digest, "/manifests/"@),
    ensures
        registry_request_of("/v2/"@ + name + "/blobs/"@ + digest) == Some(
            RegistryRequestView::Blob { name, digest },
        ),
{
    let path = "/v2/"@ + name + "/blobs/"@ + digest;
    let rest = name + "/blobs/"@ + digest;
    reveal_strlit("/blobs/");
    assert("/v2/"@.is_prefix_of(path));
    assert(path.skip("/v2/"@.len() as int) =~= rest);
    let word = seq!['b', 'l', 'o', 'b', 's'];
    assert("/blobs/"@ =~= seq!['/'] + word + seq!['/']);
    lemma_split_at_marker(name, word, digest);
    lemma_find_text_from(rest, "/manifests/"@, 0);
}

/// The first `/word/` in `name/word/rest` is the one after `name`, if it does not occur
/// in `name/`.
proof fn lemma_split_at_marker(name: Seq<char>, word: Seq<char>, rest: Seq<char>)
    requires
        word.len() > 0,
        !word.contains('/'),
        !has_text(name.push('/'), seq!['/'] + word + seq!['/']),
    ensures
        split_once_text(name + (seq!['/'] + word + seq!['/']) + rest, seq!['/'] + word + seq!['/'])
            == Some((name, rest)),
{
    let marker = seq!['/'] + word + seq!['/'];
    let s = name + marker + rest;
    let n = name.len() as int;
    assert(s.subrange(n, n + marker.len()) =~= marker);
    assert(occurs_at(s, marker, n));
    assert forall|j: int| 0 <= j < n implies !occurs_at(s, marker, j) by {
        if occurs_at(s, marker, j) {
            assert forall|k: int| 0 <= k < marker.len() implies s[j + k] == marker[k] by {
                assert(s.subrange(j, j + marker.len())[k] == marker[k]);
            }
            assert(s[n] == '/');
            if j + marker.len() <= n + 1 {
                assert(name.push('/').subrange(j, j + marker.len()) =~= marker) by {
                    assert forall|k: int| 0 <= k < marker.len() implies name.push('/')[j + k]
                        == marker[k] by {
                        assert(s[j + k] == marker[k]);
                    }
                }
                assert(occurs_at(name.push('/'), marker, j));
            } else {
                let k = n - j;
                assert(s[j + k] == marker[k]);
                assert(marker[k] == word[k - 1]);
                assert(word.contains(word[k - 1]));
            }
        }
    }
    lemma_find_text_is(s, marker, n);
    assert(s.take(n) =~= name);
    assert(s.skip(n + marker.len()) =~= rest);
}

/// Each request has exactly one route: `CONNECT` a tunnel to its path, `GET` of `/health` the
/// health check, `GET` of `/` and `/ui` the page, `POST` of a path that begins with
/// `/ui/delete` the deletion, any other `GET` and any `HEAD` the registry interface, with
/// its method and path; nothing else is found.
pub proof fn law_routes(method: Seq<char>, path: Seq<char>)
    ensures
        ({
            let r = route_of(method, path);
            let health = method == "GET"@ && path == "/health"@;
            let page = method == "GET"@ && (path == "/"@ || path == "/ui"@);
            let registry = (method == "GET"@ && !health && !page) || method == "HEAD"@;
            let deletion = method == "POST"@ && "/ui/delete"@.is_prefix_of(path);
            &&& r is Tunnel <==> method == "CONNECT"@
            &&& r matches RouteView::Tunnel { target } ==> target == path
            &&& r is Health <==> health
            &&& r is Ui <==> page
            &&& r is Delete <==> deletion
            &&& r matches RouteView::Delete { path: asked } ==> asked == path
            &&& r is Registry <==> registry
            &&& r matches RouteView::Registry { method: m, path: asked } ==> m == method && asked
                == path
            &&& r is NotFound <==> method != "CONNECT"@ && !health && !page && !registry
                && !deletion
        }),
{
    reveal_strlit("CONNECT");
    reveal_strlit("GET");
    reveal_strlit("HEAD");
    reveal_strlit("POST");
    reveal_strlit("/health");
    reveal_strlit("/");
    reveal_strlit("/ui");
    assert("/health"@.len() == 7 && "/"@.len() == 1 && "/ui"@.len() == 3);
    assert("CONNECT"@.len() == 7 && "GET"@.len() == 3 && "HEAD"@.len() == 4 && "POST"@.len() == 4);
    assert("HEAD"@[0] == 'H' && "POST"@[0] == 'P');
}

/// The target of a request is what stands before its first question mark, and its namespace
/// what the query after that gives `ns`.
pub proof fn law_target_of_request(path: Seq<char>, query: Seq<char>)
    requires
        !path.contains('?'),
    ensures
        target_of(path) == (TargetView { path, namespace: None }),
        target_of(path + seq!['?'] + query) == (TargetView {
            path,
            namespace: query_param(query, "ns"@),
        }),
{
    lemma_split_once_char_of(path, '?', query);
}

/// A path under `/v2/` begins with the name of a registry exactly if its first component, with
/// a slash after it, is `localhost` or has a dot or a colon in it. No other path does.
pub proof fn law_embedded_name(component: Seq<char>, rest: Seq<char>, other: Seq<char>)
    requires
        !component.contains('/'),
        !"/v2/"@.is_prefix_of(other),
    ensures
        embedded_namespace("/v2/"@ + component + "/"@ + rest) == (if component == "localhost"@
            || component.contains('.') || component.contains(':') {
            Some((component, rest))
        } else {
            None
        }),
        embedded_namespace("/v2/"@ + component) is None,
        embedded_namespace(other) is None,
{
    reveal_strlit("/");
    assert("/"@ =~= seq!['/']);
    let path = "/v2/"@ + component + "/"@ + rest;
    assert(path =~= "/v2/"@ + (component + seq!['/'] + rest));
    law_prefix_comes_off("/v2/"@, component + seq!['/'] + rest, path);
    law_prefix_comes_off("/v2/"@, component, path);
    lemma_split_once_char_of(component, '/', rest);
}

/// Whether `path` lies under a name of `host`, a registry not named `dockerhub`.
pub open spec fn lies_under(path: Seq<char>, host: HostView, name: Seq<char>) -> bool {
    &&& host.name != "dockerhub"@
    &&& name == host.name || name == hostname(host.url)
    &&& ("/v2/"@ + name + "/"@).is_prefix_of(path)
}

/// What is found of the names of one registry.
proof fn lemma_names_of_registry(path: Seq<char>, host: HostView)
    ensures
        first_namespace(path, namespaces(host)) == (if ("/v2/"@ + host.name + "/"@).is_prefix_of(
            path,
        ) {
            Some(host.name)
        } else if ("/v2/"@ + hostname(host.url) + "/"@).is_prefix_of(path) {
            Some(hostname(host.url))
        } else {
            None
        }),
{
    reveal_with_fuel(first_namespace, 3);
    let names = namespaces(host);
    assert(names[0] == host.name);
    if names.len() == 2 {
        assert(names.drop_first()[0] == hostname(host.url));
        assert(names.drop_first().drop_first().len() == 0);
    } else {
        assert(names.drop_first().len() == 0);
    }
}

/// The configured namespace of a path is a name under which the path lies of the first
/// registry, `dockerhub` left out, that has one, and its own name rather than its host name;
/// there is none exactly if the path lies under no name of any of these registries.
pub proof fn law_configured_name(hosts: Seq<HostView>, path: Seq<char>)
    ensures
        match configured_namespace(hosts, path) {
            Some(name) => exists|i: int|
                {
                    &&& 0 <= i < hosts.len()
                    &&& lies_under(path, #[trigger] hosts[i], name)
                    &&& lies_under(path, hosts[i], hosts[i].name) ==> name == hosts[i].name
                    &&& forall|j: int, other: Seq<char>|
                        0 <= j < i ==> !#[trigger] lies_under(path, hosts[j], other)
                },
            None => forall|j: int, other: Seq<char>|
                0 <= j < hosts.len() ==> !#[trigger] lies_under(path, hosts[j], other),
        },
    decreases hosts.len(),
{
    if hosts.len() > 0 {
        let first = hosts[0];
        let rest = hosts.drop_first();
        lemma_names_of_registry(path, first);
        law_configured_name(rest, path);
        if first.name != "dockerhub"@ && first_namespace(path, namespaces(first)) is Some {
            let name = first_namespace(path, namespaces(first))->0;
            assert(lies_under(path, hosts[0], name));
        } else {
            assert forall|other: Seq<char>| !lies_under(path, first, other) by {}
            match configured_namespace(rest, path) {
                Some(name) => {
                    let i = choose|i: int|
                        {
                            &&& 0 <= i < rest.len()
                            &&& lies_under(path, #[trigger] rest[i], name)
                            &&& lies_under(path, rest[i], rest[i].name) ==> name == rest[i].name
                            &&& forall|j: int, other: Seq<char>|
                                0 <= j < i ==> !#[trigger] lies_under(path, rest[j], other)
                        };
                    assert(hosts[i + 1] == rest[i]);
                    assert forall|j: int, other: Seq<char>| 0 <= j < i + 1 implies !#[trigger] lies_under(
                        path,
                        hosts[j],
                        other,
                    ) by {
                        if j > 0 {
                            assert(hosts[j] == rest[j - 1]);
                            assert(!lies_under(path, rest[j - 1], other));
                        }
                    }
                },
                None => {
                    assert forall|j: int, other: Seq<char>|
                        0 <= j < hosts.len() implies !#[trigger] lies_under(
                        path,
                        hosts[j],
                        other,
                    ) by {
                        if j > 0 {
                            assert(hosts[j] == rest[j - 1]);
                            assert(!lies_under(path, rest[j - 1], other));
                        }
                    }
                },
            }
        }
    }
}

/// A target without a namespace gets the configured one that its path lies under, else the
/// host name that its path begins with, else none; its path loses exactly that.
pub proof fn law_namespace_of_a_path(hosts: Seq<HostView>, path: Seq<char>)
    ensures
        ({
            let after = normalized(hosts, TargetView { path, namespace: None });
            match configured_namespace(hosts, path) {
                Some(name) => after.namespace == Some(name) && path == "/v2/"@ + name + "/"@
                    + after.path.skip(4) && after.path == "/v2/"@ + after.path.skip(4),
                None => match embedded_namespace(path) {
                    Some((name, rest)) => after.namespace == Some(name) && after.path == "/v2/"@
                        + rest && path == "/v2/"@ + name + "/"@ + rest,
                    None => after.namespace is None && after.path == path,
                },
            }
        }),
{
    reveal_strlit("/v2/");
    lemma_configured_namespace(hosts, path);
    let after = normalized(hosts, TargetView { path, namespace: None });
    if let Some(name) = configured_namespace(hosts, path) {
        let rest = under_namespace(path, name)->0;
        assert(path =~= "/v2/"@ + name + "/"@ + rest);
        assert(after.path.skip(4) =~= rest);
    } else if let Some((name, rest)) = embedded_namespace(path) {
        let tail = strip_prefix(path, "/v2/"@)->0;
        lemma_split_once_char(tail, '/');
        reveal_strlit("/");
        assert("/"@ =~= seq!['/']);
        assert(path =~= "/v2/"@ + tail);
        assert(path =~= "/v2/"@ + name + "/"@ + rest);
    }
}

/// `/v2/` alone is a ping, and asks for nothing more; a path under it asks for a manifest
/// exactly if `/manifests/` occurs after that, else for a blob exactly if `/blobs/` does. A
/// path that does not begin with `/v2/` asks for nothing.
pub proof fn law_what_paths_ask_for(rest: Seq<char>, path: Seq<char>)
    ensures
        ({
            let r = registry_request_of("/v2/"@ + rest);
            &&& rest.len() == 0 <==> r == Some(RegistryRequestView::Ping)
            &&& rest.len() > 0 && has_text(rest, "/manifests/"@) <==> (r is Some && r->0 is Manifest)
            &&& r matches Some(RegistryRequestView::Manifest { name, reference }) ==> rest == name
                + "/manifests/"@ + reference
            &&& rest.len() > 0 && !has_text(rest, "/manifests/"@) && has_text(rest, "/blobs/"@)
                <==> (r is Some && r->0 is Blob)
            &&& r matches Some(RegistryRequestView::Blob { name, digest }) ==> rest == name
                + "/blobs/"@ + digest
        }),
        !"/v2/"@.is_prefix_of(path) ==> registry_request_of(path) is None,
{
    law_prefix_comes_off("/v2/"@, rest, path);
    law_split_around(rest, "/manifests/"@);
    law_split_around(rest, "/blobs/"@);
    lemma_find_text_from(rest, "/manifests/"@, 0);
    lemma_find_text_from(rest, "/blobs/"@, 0);
}

/// What is seen of a route, a target and a request is all that they hold.
pub proof fn law_requests_are_seen_as_they_are(
    route: Route<'_>,
    target: RequestTarget,
    request: RegistryRequest<'_>,
)
    ensures
        match route {
            Route::Tunnel { target } => route@ == (RouteView::Tunnel { target: target@ }),
            Route::Health => route@ == RouteView::Health,
            Route::Ui => route@ == RouteView::Ui,
            Route::Delete { path } => route@ == (RouteView::Delete { path: path@ }),
            Route::Registry { method, path } => route@ == (RouteView::Registry {
                method: method@,
                path: path@,
            }),
            Route::NotFound => route@ == RouteView::NotFound,
        },
        target@.path == target.path@,
        target@.namespace == match target.namespace {
            Some(name) => Some(name@),
            None => None,
        },
        match request {
            RegistryRequest::Ping => request@ == RegistryRequestView::Ping,
            RegistryRequest::Manifest { name, reference } => request@
                == (RegistryRequestView::Manifest { name: name@, reference: reference@ }),
            RegistryRequest::Blob { name, digest } => request@ == (RegistryRequestView::Blob {
                name: name@,
                digest: digest@,
            }),
        },
{
}

} // verus!
