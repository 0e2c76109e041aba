//! What is done about a request.

use reqwest::header::HeaderMap;
use vstd::prelude::*;
use vstd::utf8::*;

use crate::cache::{after_writing, entry_files, entry_read, file_in, is_unservable, Age};
use crate::config::{as_text, Config, DockerHost, HostView};
use crate::exchange::{
    goes_upstream, law_fresh_entry_needs_no_upstream, law_stored_answer_is_served_again, next, run,
    ActionView, EventView, Exchange, ExchangeView, StageView,
};
use crate::hosts::{
    dockerhub_index, goes_by, hostname, is_dockerhub_namespace, namespaces, upstream_host,
    upstream_index,
};
use crate::paths::{
    cache_blob_path, cache_manifest_path, entry_path, law_shared_path_means_like_names, EntryPath, EntryPathView, PathStyle,
};
use crate::request::{
    configured_namespace, embedded_namespace, first_namespace, law_blob_path,
    law_explicit_registry_is_reached, law_manifest_path, law_routes, looks_like_registry, normalize_embedded_namespace, normalized,
    parse_registry_request, parse_request_line, parse_request_target, registry_request_of, route,
    route_of, target_of, under_namespace, RegistryRequest, RegistryRequestView, RequestLine, Route,
    RouteView, TargetView,
};
use crate::response::{
    content_type_of, digest_of, put_bytes, registry_response, text_response,
    write_registry_response, write_text_response,
};
use crate::text::{
    before_char, contains_char, find_char, first_line, first_words, has_text, lemma_find_char,
    lemma_find_char_is, lemma_split_once_char_of, pieces, same_text, split_once_char,
    strip_prefix, trim,
};
use crate::ui::{delete_plan, handle_ui_delete, DeletePlan, DeletePlanView};

verus! {

// ---------------------------------------------------------------------------
// Requests to a registry
// ---------------------------------------------------------------------------

/// What is done about a request to a registry.
pub enum RegistryTask<'a> {
    /// This is sent.
    Respond(Vec<u8>),
    /// A manifest or a blob is served, whose entry lies at `cache_path`.
    Serve { cache_path: EntryPath, exchange: Exchange<'a> },
}

/// What is done about a request to a registry.
pub enum RegistryTaskView {
    Respond(Seq<u8>),
    Serve { cache_path: EntryPathView, exchange: ExchangeView },
}

impl<'a> View for RegistryTask<'a> {
    type V = RegistryTaskView;

    open spec fn view(&self) -> RegistryTaskView {
        match self {
            RegistryTask::Respond(bytes) => RegistryTaskView::Respond(bytes@),
            RegistryTask::Serve { cache_path, exchange } => RegistryTaskView::Serve {
                cache_path: cache_path@,
                exchange: exchange@,
            },
        }
    }
}

/// The registry that was chosen for a request, and the namespace that it was chosen for.
pub struct Upstream<'a> {
    pub host: &'a DockerHost,
    pub namespace: String,
}

/// What is done about a request to a registry, and which one was chosen, if any was.
pub struct RegistryPlan<'a> {
    pub upstream: Option<Upstream<'a>>,
    pub task: RegistryTask<'a>,
}

/// What is done about a request to a registry, and which one was chosen, if any was.
pub struct RegistryPlanView {
    pub upstream: Option<(HostView, Seq<char>)>,
    pub task: RegistryTaskView,
}

impl<'a> View for RegistryPlan<'a> {
    type V = RegistryPlanView;

    open spec fn view(&self) -> RegistryPlanView {
        RegistryPlanView {
            upstream: match self.upstream {
                Some(upstream) => Some((upstream.host@, upstream.namespace@)),
                None => None,
            },
            task: self.task@,
        }
    }
}

/// What the proxy is set up with.
pub struct Setup {
    pub hosts: Seq<HostView>,
    pub cache_dir: Seq<char>,
    pub ttl: u64,
}

/// What the given registry is asked: a ping is answered with nothing but a head; a
/// manifest is served and stored; a blob is served and, if all of it is asked for, stored.
pub open spec fn registry_task(
    setup: Setup,
    host: HostView,
    method: Seq<char>,
    path: Seq<char>,
    request: RegistryRequestView,
) -> RegistryTaskView {
    match request {
        RegistryRequestView::Ping => RegistryTaskView::Respond(
            registry_response("200 OK"@, "application/json"@, None, seq![], method == "HEAD"@),
        ),
        RegistryRequestView::Manifest { name, reference } => RegistryTaskView::Serve {
            cache_path: entry_path(setup.cache_dir, host.name, "manifests"@, name, reference),
            exchange: ExchangeView { host, method, path, ttl: setup.ttl, store: true },
        },
        RegistryRequestView::Blob { name, digest } => RegistryTaskView::Serve {
            cache_path: entry_path(setup.cache_dir, host.name, "blobs"@, name, digest),
            exchange: ExchangeView {
                host,
                method,
                path,
                ttl: setup.ttl,
                store: method == "GET"@,
            },
        },
    }
}

/// What is done about a request for a target: one that asks for nothing is not found,
/// then one for which there is no registry is refused.
pub open spec fn target_plan(setup: Setup, method: Seq<char>, target: TargetView) -> RegistryPlanView {
    match registry_request_of(target.path) {
        None => RegistryPlanView {
            upstream: None,
            task: RegistryTaskView::Respond(text_response("404 Not Found"@, "not found\n"@)),
        },
        Some(request) => match upstream_index(setup.hosts, target.namespace) {
            None => RegistryPlanView {
                upstream: None,
                task: RegistryTaskView::Respond(
                    text_response(
                        "502 Bad Gateway"@,
                        "no matching upstream host configured\n"@,
                    ),
                ),
            },
            Some(i) => RegistryPlanView {
                upstream: Some(
                    (
                        setup.hosts[i],
                        match target.namespace {
                            Some(name) => name,
                            None => "docker.io"@,
                        },
                    ),
                ),
                task: registry_task(setup, setup.hosts[i], method, target.path, request),
            },
        },
    }
}

/// What is done about a request to a registry.
pub open spec fn registry_plan(setup: Setup, method: Seq<char>, path: Seq<char>) -> RegistryPlanView {
    target_plan(setup, method, normalized(setup.hosts, target_of(path)))
}

/// A response with plain text as its body.
fn text_bytes(status: &str, body: &str) -> (r: Vec<u8>)
    ensures
        r@ == text_response(status@, body@),
{
    let mut out: Vec<u8> = Vec::new();
    write_text_response(&mut out, status, body);
    assert(Seq::<u8>::empty() + text_response(status@, body@) =~= text_response(status@, body@));
    out
}

/// What is done about a request to a registry.
pub fn handle_registry_request<'a>(
    config: &'a Config,
    cache_dir: &str,
    ttl: u64,
    method: &'a str,
    path: &str,
) -> (r: RegistryPlan<'a>)
    ensures
        r@ == registry_plan(
            (Setup { hosts: config.hosts_view(), cache_dir: cache_dir@, ttl }),
            method@,
            path@,
        ),
        r.task matches RegistryTask::Serve { exchange, .. } ==> exchange.stage()
            == StageView::LookUp,
{
    let mut target = parse_request_target(path);
    normalize_embedded_namespace(config, &mut target);
    let request = match parse_registry_request(target.path.as_str()) {
        Some(request) => request,
        None => {
            return RegistryPlan {
                upstream: None,
                task: RegistryTask::Respond(text_bytes("404 Not Found", "not found\n")),
            };
        },
    };
    let host = match upstream_host(config, as_text(&target.namespace)) {
        Some(host) => host,
        None => {
            return RegistryPlan {
                upstream: None,
                task: RegistryTask::Respond(
                    text_bytes("502 Bad Gateway", "no matching upstream host configured\n"),
                ),
            };
        },
    };
    let namespace = match &target.namespace {
        Some(name) => name.clone(),
        None => "docker.io".to_string(),
    };
    let upstream = Some(Upstream { host, namespace });
    let task = match request {
        RegistryRequest::Ping => {
            let nothing: [u8; 0] = [];
            let mut out: Vec<u8> = Vec::new();
            write_registry_response(
                &mut out,
                "200 OK",
                "application/json",
                None,
                nothing.as_slice(),
                same_text(method, "HEAD"),
            );
            assert(nothing@ =~= seq![]);
            assert(Seq::<u8>::empty() + out@ =~= out@);
            RegistryTask::Respond(out)
        },
        RegistryRequest::Manifest { name, reference } => RegistryTask::Serve {
            cache_path: cache_manifest_path(cache_dir, host, name, reference),
            exchange: Exchange::new(host, method, target.path.clone(), ttl, true),
        },
        RegistryRequest::Blob { name, digest } => RegistryTask::Serve {
            cache_path: cache_blob_path(cache_dir, host, name, digest),
            exchange: Exchange::new(
                host,
                method,
                target.path.clone(),
                ttl,
                same_text(method, "GET"),
            ),
        },
    };
    RegistryPlan { upstream, task }
}

// ---------------------------------------------------------------------------
// Tunnels
// ---------------------------------------------------------------------------

/// What is answered when it was tried to reach the other end of a tunnel.
pub open spec fn tunnel_answer(connected: bool) -> Seq<u8> {
    if connected {
        encode_utf8("HTTP/1.1 200 Connection Established\r\n\r\n"@)
    } else {
        text_response("502 Bad Gateway"@, "upstream connect failed\n"@)
    }
}

/// What is answered when it was tried to reach the other end of a tunnel; if it was
/// reached, the bytes of either end are then passed to the other.
pub fn tunnel_connect(connected: bool) -> (r: Vec<u8>)
    ensures
        r@ == tunnel_answer(connected),
{
    if connected {
        let mut out: Vec<u8> = Vec::new();
        put_bytes(&mut out, "HTTP/1.1 200 Connection Established\r\n\r\n".as_bytes());
        assert(out@ =~= tunnel_answer(true));
        out
    } else {
        text_bytes("502 Bad Gateway", "upstream connect failed\n")
    }
}

// ---------------------------------------------------------------------------
// All requests
// ---------------------------------------------------------------------------

/// What is done about a request.
pub enum Task<'a> {
    /// This is sent.
    Respond(Vec<u8>),
    /// A tunnel to `target` is opened.
    Tunnel { target: &'a str },
    /// The cache is listed.
    List,
    /// An entry is deleted.
    Delete(DeletePlan),
    /// A registry is asked.
    Registry(RegistryPlan<'a>),
}

/// What is done about a request.
pub enum TaskView {
    Respond(Seq<u8>),
    Tunnel { target: Seq<char> },
    List,
    Delete(DeletePlanView),
    Registry(RegistryPlanView),
}

impl<'a> View for Task<'a> {
    type V = TaskView;

    open spec fn view(&self) -> TaskView {
        match self {
            Task::Respond(bytes) => TaskView::Respond(bytes@),
            Task::Tunnel { target } => TaskView::Tunnel { target: target@ },
            Task::List => TaskView::List,
            Task::Delete(plan) => TaskView::Delete(plan@),
            Task::Registry(plan) => TaskView::Registry(plan@),
        }
    }
}

/// What is done about a request with this method and path.
pub open spec fn task_of(
    style: PathStyle,
    setup: Setup,
    method: Seq<char>,
    path: Seq<char>,
) -> TaskView {
    match route_of(method, path) {
        RouteView::Tunnel { target } => if target.contains(':') {
            TaskView::Tunnel { target }
        } else {
            TaskView::Respond(
                text_response("400 Bad Request"@, "CONNECT target must include a port\n"@),
            )
        },
        RouteView::Health => TaskView::Respond(text_response("200 OK"@, "ok\n"@)),
        RouteView::Ui => TaskView::List,
        RouteView::Delete { path } => TaskView::Delete(delete_plan(style, setup.cache_dir, path)),
        RouteView::Registry { method, path } => TaskView::Registry(
            registry_plan(setup, method, path),
        ),
        RouteView::NotFound => TaskView::Respond(text_response("404 Not Found"@, "not found\n"@)),
    }
}

/// What is done about a request with this method and path.
pub fn handle_connection<'a>(
    config: &'a Config,
    style: PathStyle,
    cache_dir: &str,
    ttl: u64,
    method: &'a str,
    path: &'a str,
) -> (r: Task<'a>)
    ensures
        r@ == task_of(
            style,
            (Setup { hosts: config.hosts_view(), cache_dir: cache_dir@, ttl }),
            method@,
            path@,
        ),
        r matches Task::Registry(plan) ==> (plan.task matches RegistryTask::Serve { exchange, .. }
            ==> exchange.stage() == StageView::LookUp),
{
    match route(method, path) {
        Route::Tunnel { target } => {
            if contains_char(target, ':') {
                Task::Tunnel { target }
            } else {
                Task::Respond(
                    text_bytes("400 Bad Request", "CONNECT target must include a port\n"),
                )
            }
        },
        Route::Health => Task::Respond(text_bytes("200 OK", "ok\n")),
        Route::Ui => Task::List,
        Route::Delete { path } => Task::Delete(handle_ui_delete(style, cache_dir, path)),
        Route::Registry { method, path } => Task::Registry(
            handle_registry_request(config, cache_dir, ttl, method, path),
        ),
        Route::NotFound => Task::Respond(text_bytes("404 Not Found", "not found\n")),
    }
}

/// The request line of a request, and what is done about the request.
pub fn handle_request<'a>(
    config: &'a Config,
    style: PathStyle,
    cache_dir: &str,
    ttl: u64,
    request: &'a str,
) -> (r: (RequestLine<'a>, Task<'a>))
    ensures
        first_words(first_line(request@), 3) == seq![r.0.method@, r.0.path@, r.0.version@],
        r.1@ == task_of(
            style,
            (Setup { hosts: config.hosts_view(), cache_dir: cache_dir@, ttl }),
            first_words(first_line(request@), 3)[0],
            first_words(first_line(request@), 3)[1],
        ),
        r.1 matches Task::Registry(plan) ==> (plan.task matches RegistryTask::Serve { exchange, .. }
            ==> exchange.stage() == StageView::LookUp),
{
    let line = parse_request_line(request);
    let task = handle_connection(config, style, cache_dir, ttl, line.method, line.path);
    (line, task)
}

// ---------------------------------------------------------------------------
// Laws
// ---------------------------------------------------------------------------

/// A method other than those for reading, deleting and tunnels is not served: nothing
/// is pushed through the proxy.
pub proof fn law_other_methods_are_not_served(
    style: PathStyle,
    setup: Setup,
    method: Seq<char>,
    path: Seq<char>,
)
    requires
        method != "CONNECT"@,
        method != "GET"@,
        method != "HEAD"@,
        method != "POST"@ || !"/ui/delete"@.is_prefix_of(path),
    ensures
        task_of(style, setup, method, path) == TaskView::Respond(
            text_response("404 Not Found"@, "not found\n"@),
        ),
{
}

/// A path under `/v2/` is one of the registry interface.
proof fn lemma_registry_route(style: PathStyle, setup: Setup, method: Seq<char>, rest: Seq<char>)
    requires
        method == "GET"@ || method == "HEAD"@,
    ensures
        task_of(style, setup, method, "/v2/"@ + rest) == TaskView::Registry(
            registry_plan(setup, method, "/v2/"@ + rest),
        ),
{
    let path = "/v2/"@ + rest;
    reveal_strlit("GET");
    reveal_strlit("HEAD");
    reveal_strlit("CONNECT");
    reveal_strlit("POST");
    reveal_strlit("/v2/");
    reveal_strlit("/");
    reveal_strlit("/ui");
    reveal_strlit("/health");
    assert(path[1] == 'v');
    assert(path.len() >= 4);
    assert("GET"@.len() == 3 && "HEAD"@.len() == 4 && "CONNECT"@.len() == 7);
    assert("HEAD"@[0] == 'H' && "POST"@[0] == 'P');
    assert("/"@.len() == 1);
    assert("/ui"@.len() == 3);
    assert("/health"@[1] == 'h');
}

/// A path without a query names itself.
proof fn lemma_target_without_query(path: Seq<char>)
    requires
        !path.contains('?'),
    ensures
        target_of(path) == (TargetView { path, namespace: None }),
{
    lemma_find_char(path, '?');
}

/// A request that names no registry goes to Docker Hub, with its path as it is.
pub proof fn law_plain_request_goes_to_docker_hub(
    style: PathStyle,
    setup: Setup,
    method: Seq<char>,
    rest: Seq<char>,
    request: RegistryRequestView,
    i: int,
)
    requires
        method == "GET"@ || method == "HEAD"@,
        !("/v2/"@ + rest).contains('?'),
        configured_namespace(setup.hosts, "/v2/"@ + rest) is None,
        embedded_namespace("/v2/"@ + rest) is None,
        registry_request_of("/v2/"@ + rest) == Some(request),
        dockerhub_index(setup.hosts) == Some(i),
    ensures
        task_of(style, setup, method, "/v2/"@ + rest) == TaskView::Registry(
            RegistryPlanView {
                upstream: Some((setup.hosts[i], "docker.io"@)),
                task: registry_task(setup, setup.hosts[i], method, "/v2/"@ + rest, request),
            },
        ),
{
    lemma_registry_route(style, setup, method, rest);
    lemma_target_without_query("/v2/"@ + rest);
}

/// A manifest of a repository whose name does not begin with that of a registry is
/// served from Docker Hub, and stored under the name of Docker Hub in the cache.
pub proof fn law_plain_manifest_goes_to_docker_hub(
    style: PathStyle,
    setup: Setup,
    method: Seq<char>,
    name: Seq<char>,
    reference: Seq<char>,
    i: int,
)
    requires
        method == "GET"@ || method == "HEAD"@,
        !name.contains('?'),
        !reference.contains('?'),
        !has_text(name.push('/'), "/manifests/"@),
        configured_namespace(setup.hosts, "/v2/"@ + name + "/manifests/"@ + reference) is None,
        !looks_like_registry(before_char(name, '/')),
        dockerhub_index(setup.hosts) == Some(i),
    ensures
        task_of(style, setup, method, "/v2/"@ + name + "/manifests/"@ + reference) == TaskView::Registry(
            RegistryPlanView {
                upstream: Some((setup.hosts[i], "docker.io"@)),
                task: RegistryTaskView::Serve {
                    cache_path: entry_path(
                        setup.cache_dir,
                        setup.hosts[i].name,
                        "manifests"@,
                        name,
                        reference,
                    ),
                    exchange: ExchangeView {
                        host: setup.hosts[i],
                        method,
                        path: "/v2/"@ + name + "/manifests/"@ + reference,
                        ttl: setup.ttl,
                        store: true,
                    },
                },
            },
        ),
{
    reveal_strlit("/v2/");
    reveal_strlit("/manifests/");
    let tail = "/manifests/"@ + reference;
    let rest = name + tail;
    let path = "/v2/"@ + name + "/manifests/"@ + reference;
    assert(path =~= "/v2/"@ + rest);
    assert(!path.contains('?')) by {
        assert forall|k: int| 0 <= k < path.len() implies path[k] != '?' by {
            if k < 4 {
                assert(path[k] == "/v2/"@[k]);
            } else if k < 4 + name.len() {
                assert(name.contains(name[k - 4]));
            } else if k < 15 + name.len() {
                assert(path[k] == "/manifests/"@[k - 4 - name.len()]);
            } else {
                assert(reference.contains(reference[k - 15 - name.len()]));
            }
        }
    }
    law_manifest_path(name, reference);
    assert(embedded_namespace(path) is None) by {
        assert(path.skip(4) =~= rest);
        assert(strip_prefix(path, "/v2/"@) == Some(rest));
        lemma_first_component(name, tail);
    }
    law_plain_request_goes_to_docker_hub(
        style,
        setup,
        method,
        rest,
        RegistryRequestView::Manifest { name, reference },
        i,
    );
}

/// The first component of a path is the first component of its beginning, if a slash
/// follows that.
proof fn lemma_first_component(name: Seq<char>, tail: Seq<char>)
    requires
        tail.len() > 0,
        tail[0] == '/',
    ensures
        split_once_char(name + tail, '/') matches Some((component, _)) && component == before_char(
            name,
            '/',
        ),
{
    let all = name + tail;
    lemma_find_char(name, '/');
    let k = find_char(name, '/');
    assert(all[k] == '/');
    assert forall|j: int| 0 <= j < k implies all[j] != '/' by {
        assert(all[j] == name[j]);
    }
    lemma_find_char_is(all, '/', k);
    assert(all.take(k) =~= name.take(k));
}

/// A request under the namespace of a configured registry goes to that registry, with
/// the namespace taken out of its path: `i` is the first registry that the path lies
/// under, and the first that goes by the namespace.
pub proof fn law_explicit_request_goes_to_its_registry(
    style: PathStyle,
    setup: Setup,
    method: Seq<char>,
    i: int,
    namespace: Seq<char>,
    rest: Seq<char>,
    request: RegistryRequestView,
)
    requires
        method == "GET"@ || method == "HEAD"@,
        !("/v2/"@ + namespace + "/"@ + rest).contains('?'),
        registry_request_of("/v2/"@ + rest) == Some(request),
        0 <= i < setup.hosts.len(),
        setup.hosts[i].name != "dockerhub"@,
        namespace == setup.hosts[i].name || (namespace == hostname(setup.hosts[i].url)
            && under_namespace("/v2/"@ + namespace + "/"@ + rest, setup.hosts[i].name) is None),
        forall|j: int|
            0 <= j < i ==> (#[trigger] setup.hosts[j]).name == "dockerhub"@ || first_namespace(
                "/v2/"@ + namespace + "/"@ + rest,
                namespaces(setup.hosts[j]),
            ) is None,
        !is_dockerhub_namespace(namespace),
        forall|j: int| 0 <= j < i ==> !goes_by(#[trigger] setup.hosts[j], namespace),
    ensures
        task_of(style, setup, method, "/v2/"@ + namespace + "/"@ + rest) == TaskView::Registry(
            RegistryPlanView {
                upstream: Some((setup.hosts[i], namespace)),
                task: registry_task(setup, setup.hosts[i], method, "/v2/"@ + rest, request),
            },
        ),
{
    let path = "/v2/"@ + namespace + "/"@ + rest;
    assert(path =~= "/v2/"@ + (namespace + "/"@ + rest));
    lemma_registry_route(style, setup, method, namespace + "/"@ + rest);
    lemma_target_without_query(path);
    law_explicit_registry_is_reached(setup.hosts, i, namespace, rest);
}

/// A request under a namespace that no registry is configured under, but that has the
/// form of a host name, goes to the registry for that namespace, with the namespace
/// taken out of its path, and is refused if there is none.
pub proof fn law_embedded_host_name_decides(
    style: PathStyle,
    setup: Setup,
    method: Seq<char>,
    namespace: Seq<char>,
    rest: Seq<char>,
    request: RegistryRequestView,
)
    requires
        method == "GET"@ || method == "HEAD"@,
        !("/v2/"@ + namespace + "/"@ + rest).contains('?'),
        registry_request_of("/v2/"@ + rest) == Some(request),
        configured_namespace(setup.hosts, "/v2/"@ + namespace + "/"@ + rest) is None,
        !namespace.contains('/'),
        looks_like_registry(namespace),
    ensures
        task_of(style, setup, method, "/v2/"@ + namespace + "/"@ + rest) == TaskView::Registry(
            match upstream_index(setup.hosts, Some(namespace)) {
                Some(i) => RegistryPlanView {
                    upstream: Some((setup.hosts[i], namespace)),
                    task: registry_task(setup, setup.hosts[i], method, "/v2/"@ + rest, request),
                },
                None => RegistryPlanView {
                    upstream: None,
                    task: RegistryTaskView::Respond(
                        text_response(
                            "502 Bad Gateway"@,
                            "no matching upstream host configured\n"@,
                        ),
                    ),
                },
            },
        ),
{
    let path = "/v2/"@ + namespace + "/"@ + rest;
    reveal_strlit("/");
    assert("/"@ =~= seq!['/']);
    assert(path =~= "/v2/"@ + (namespace + "/"@ + rest));
    lemma_registry_route(style, setup, method, namespace + "/"@ + rest);
    lemma_target_without_query(path);
    assert(path.skip("/v2/"@.len() as int) =~= namespace + seq!['/'] + rest);
    lemma_split_once_char_of(namespace, '/', rest);
}

/// A request whose query gives the namespace goes to the registry for that namespace,
/// with its path as it is.
pub proof fn law_namespace_parameter_decides(
    style: PathStyle,
    setup: Setup,
    method: Seq<char>,
    rest: Seq<char>,
    namespace: Seq<char>,
    request: RegistryRequestView,
    i: int,
)
    requires
        method == "GET"@ || method == "HEAD"@,
        !("/v2/"@ + rest).contains('?'),
        !namespace.contains('&'),
        registry_request_of("/v2/"@ + rest) == Some(request),
        upstream_index(setup.hosts, Some(namespace)) == Some(i),
    ensures
        task_of(style, setup, method, "/v2/"@ + rest + "?ns="@ + namespace) == TaskView::Registry(
            RegistryPlanView {
                upstream: Some((setup.hosts[i], namespace)),
                task: registry_task(setup, setup.hosts[i], method, "/v2/"@ + rest, request),
            },
        ),
{
    let path = "/v2/"@ + rest;
    let query = "ns="@ + namespace;
    reveal_strlit("ns=");
    reveal_strlit("ns");
    reveal_strlit("?ns=");
    let whole = path + "?ns="@ + namespace;
    assert("?ns="@ =~= seq!['?'] + "ns="@);
    assert(whole =~= path + seq!['?'] + query);
    assert(whole =~= "/v2/"@ + (rest + "?ns="@ + namespace));
    lemma_registry_route(style, setup, method, rest + "?ns="@ + namespace);
    lemma_split_once_char_of(path, '?', query);
    assert("ns="@ =~= "ns"@ + seq!['=']);
    assert(query =~= "ns"@ + seq!['='] + namespace);
    assert(!query.contains('&')) by {
        assert forall|k: int| 0 <= k < query.len() implies query[k] != '&' by {
            if k < 3 {
                assert(query[k] == "ns="@[k]);
            } else {
                assert(namespace.contains(namespace[k - 3]));
            }
        }
    }
    lemma_find_char(query, '&');
    assert(pieces(query, '&') =~= seq![query]);
    assert(!"ns"@.contains('='));
    lemma_split_once_char_of("ns"@, '=', namespace);
    assert(target_of(whole) =~= (TargetView { path, namespace: Some(namespace) }));
}

/// `GET` and `HEAD` for one path go to the same registry and the same entry.
pub proof fn law_get_and_head_share_an_entry(setup: Setup, path: Seq<char>)
    ensures
        registry_plan(setup, "GET"@, path).upstream == registry_plan(setup, "HEAD"@, path).upstream,
        registry_plan(setup, "GET"@, path).task matches RegistryTaskView::Serve {
            cache_path,
            exchange,
        } ==> (registry_plan(setup, "HEAD"@, path).task matches RegistryTaskView::Serve {
            cache_path: other_path,
            exchange: other,
        } && other_path == cache_path && other.host == exchange.host && other.path
            == exchange.path),
{
}

/// What a pull stored is all that a later pull needs: if a path was asked for with `GET`
/// and upstream answered with success, a later request for that path, `GET` or `HEAD`,
/// that finds the entry before its time is up looks at the same place, hands out what
/// was stored there, and asks nothing of upstream, whatever happens after.
pub proof fn law_later_pull_needs_no_upstream(
    setup: Setup,
    path: Seq<char>,
    dir: Map<Seq<char>, Seq<u8>>,
    status: u16,
    headers: HeaderMap,
    body: Seq<u8>,
    later_method: Seq<char>,
    age: Option<Age>,
    later: Seq<EventView>,
)
    requires
        registry_plan(setup, "GET"@, path).task is Serve,
        200 <= status < 300,
        digest_of(headers) is None ==> !dir.contains_key("digest"@),
        later_method == "GET"@ || later_method == "HEAD"@,
        !is_unservable(age, setup.ttl),
    ensures
        ({
            let first = registry_plan(setup, "GET"@, path).task;
            let second = registry_plan(setup, later_method, path).task;
            let (stage, action) = next(
                first->exchange,
                StageView::Read { status, headers },
                EventView::Body(body),
            );
            let after = after_writing(
                dir,
                entry_files(content_type_of(headers), digest_of(headers), body),
            );
            let cached = entry_read(
                file_in(after, "content-type"@),
                file_in(after, "digest"@),
                body,
            );
            let actions = run(
                second->exchange,
                StageView::LookUp,
                seq![EventView::Found(Some((cached, age)))] + later,
            );
            &&& stage == (StageView::Store { status, headers, body })
            &&& action == ActionView::Store
            &&& second is Serve
            &&& second->cache_path == first->cache_path
            &&& file_in(after, "body"@) == Some(body)
            &&& actions[0] == ActionView::Respond(
                registry_response(
                    "200 OK"@,
                    trim(content_type_of(headers)),
                    match digest_of(headers) {
                        Some(digest) => Some(trim(digest)),
                        None => None,
                    },
                    body,
                    later_method == "HEAD"@,
                ),
            )
            &&& forall|i: int| 0 <= i < actions.len() ==> !goes_upstream(#[trigger] actions[i])
        }),
{
    let second = registry_plan(setup, later_method, path).task;
    let after = after_writing(
        dir,
        entry_files(content_type_of(headers), digest_of(headers), body),
    );
    let cached = entry_read(file_in(after, "content-type"@), file_in(after, "digest"@), body);
    law_stored_answer_is_served_again(dir, headers, body, second->exchange, age);
    law_fresh_entry_needs_no_upstream(second->exchange, cached, age, later);
}

/// Whichever registry is chosen, a ping is answered with an empty JSON response; a manifest
/// is served out of the entry for its whole repository and reference, and stored; a blob is
/// served out of the entry for its whole repository and digest, and stored exactly if it is
/// asked for with `GET`. The registry is asked for the very path, with the client's method.
pub proof fn law_what_a_registry_is_asked(
    setup: Setup,
    host: HostView,
    method: Seq<char>,
    path: Seq<char>,
    name: Seq<char>,
    reference: Seq<char>,
)
    ensures
        registry_task(setup, host, method, path, RegistryRequestView::Ping)
            == RegistryTaskView::Respond(
            registry_response(
                "200 OK"@,
                "application/json"@,
                None,
                Seq::empty(),
                method == "HEAD"@,
            ),
        ),
        registry_task(
            setup,
            host,
            method,
            path,
            RegistryRequestView::Manifest { name, reference },
        ) == (RegistryTaskView::Serve {
            cache_path: entry_path(setup.cache_dir, host.name, "manifests"@, name, reference),
            exchange: ExchangeView { host, method, path, ttl: setup.ttl, store: true },
        }),
        registry_task(
            setup,
            host,
            method,
            path,
            RegistryRequestView::Blob { name, digest: reference },
        ) == (RegistryTaskView::Serve {
            cache_path: entry_path(setup.cache_dir, host.name, "blobs"@, name, reference),
            exchange: ExchangeView {
                host,
                method,
                path,
                ttl: setup.ttl,
                store: method == "GET"@,
            },
        }),
{
}

/// A request for a blob that is meant for a registry, whether it was given by a parameter,
/// taken out of the path or chosen by default, is served by that registry out of the entry
/// for the whole repository and the whole digest, and stored exactly if it is asked for with
/// `GET`.
pub proof fn law_blob_is_served_by_the_chosen_registry(
    setup: Setup,
    method: Seq<char>,
    name: Seq<char>,
    digest: Seq<char>,
    namespace: Option<Seq<char>>,
    i: int,
)
    requires
        !has_text(name.push('/'), "/blobs/"@),
        !has_text(name + "/blobs/"@ + digest, "/manifests/"@),
        upstream_index(setup.hosts, namespace) == Some(i),
    ensures
        ({
            let path = "/v2/"@ + name + "/blobs/"@ + digest;
            target_plan(setup, method, TargetView { path, namespace }) == (RegistryPlanView {
                upstream: Some(
                    (
                        setup.hosts[i],
                        match namespace {
                            Some(given) => given,
                            None => "docker.io"@,
                        },
                    ),
                ),
                task: RegistryTaskView::Serve {
                    cache_path: entry_path(
                        setup.cache_dir,
                        setup.hosts[i].name,
                        "blobs"@,
                        name,
                        digest,
                    ),
                    exchange: ExchangeView {
                        host: setup.hosts[i],
                        method,
                        path,
                        ttl: setup.ttl,
                        store: method == "GET"@,
                    },
                },
            })
        }),
{
    law_blob_path(name, digest);
}

/// A blob of a repository whose name does not begin with that of a registry is served from
/// Docker Hub, out of the entry for its whole digest, and stored, under the name of Docker
/// Hub in the cache, exactly if it is asked for with `GET`.
pub proof fn law_plain_blob_goes_to_docker_hub(
    style: PathStyle,
    setup: Setup,
    method: Seq<char>,
    name: Seq<char>,
    digest: Seq<char>,
    i: int,
)
    requires
        method == "GET"@ || method == "HEAD"@,
        !name.contains('?'),
        !digest.contains('?'),
        !has_text(name.push('/'), "/blobs/"@),
        !has_text(name + "/blobs/"@ + digest, "/manifests/"@),
        configured_namespace(setup.hosts, "/v2/"@ + name + "/blobs/"@ + digest) is None,
        !looks_like_registry(before_char(name, '/')),
        dockerhub_index(setup.hosts) == Some(i),
    ensures
        task_of(style, setup, method, "/v2/"@ + name + "/blobs/"@ + digest) == TaskView::Registry(
            RegistryPlanView {
                upstream: Some((setup.hosts[i], "docker.io"@)),
                task: RegistryTaskView::Serve {
                    cache_path: entry_path(
                        setup.cache_dir,
                        setup.hosts[i].name,
                        "blobs"@,
                        name,
                        digest,
                    ),
                    exchange: ExchangeView {
                        host: setup.hosts[i],
                        method,
                        path: "/v2/"@ + name + "/blobs/"@ + digest,
                        ttl: setup.ttl,
                        store: method == "GET"@,
                    },
                },
            },
        ),
{
    reveal_strlit("/v2/");
    reveal_strlit("/blobs/");
    let tail = "/blobs/"@ + digest;
    let rest = name + tail;
    let path = "/v2/"@ + name + "/blobs/"@ + digest;
    assert(path =~= "/v2/"@ + rest);
    assert(!path.contains('?')) by {
        assert forall|k: int| 0 <= k < path.len() implies path[k] != '?' by {
            if k < 4 {
                assert(path[k] == "/v2/"@[k]);
            } else if k < 4 + name.len() {
                assert(name.contains(name[k - 4]));
            } else if k < 11 + name.len() {
                assert(path[k] == "/blobs/"@[k - 4 - name.len()]);
            } else {
                assert(digest.contains(digest[k - 11 - name.len()]));
            }
        }
    }
    law_blob_path(name, digest);
    assert(embedded_namespace(path) is None) by {
        assert(path.skip(4) =~= rest);
        assert(strip_prefix(path, "/v2/"@) == Some(rest));
        lemma_first_component(name, tail);
    }
    law_plain_request_goes_to_docker_hub(
        style,
        setup,
        method,
        rest,
        RegistryRequestView::Blob { name, digest },
        i,
    );
}

/// Two requests for blobs that look at the same place in the cache have digests that are
/// equally long and alike in every letter and digit, every dot and every dash, and so have
/// two requests for manifests with their references; so what is stored for one blob is never
/// handed out for another whose digest differs in one of these.
pub proof fn law_shared_entry_means_like_digests(
    setup: Setup,
    method: Seq<char>,
    path: Seq<char>,
    other_method: Seq<char>,
    other_path: Seq<char>,
)
    requires
        registry_plan(setup, method, path).task is Serve,
        registry_plan(setup, other_method, other_path).task is Serve,
        registry_plan(setup, method, path).task->cache_path == registry_plan(
            setup,
            other_method,
            other_path,
        ).task->cache_path,
    ensures
        ({
            let asked = registry_request_of(normalized(setup.hosts, target_of(path)).path)->0;
            let other = registry_request_of(
                normalized(setup.hosts, target_of(other_path)).path,
            )->0;
            match (asked, other) {
                (
                    RegistryRequestView::Blob { digest: first, .. },
                    RegistryRequestView::Blob { digest: second, .. },
                ) => {
                    &&& first.len() == second.len()
                    &&& forall|k: int|
                        0 <= k < first.len() && ('a' <= #[trigger] first[k] <= 'z' || 'A'
                            <= first[k] <= 'Z' || '0' <= first[k] <= '9' || first[k] == '.'
                            || first[k] == '-') ==> first[k] == second[k]
                },
                (
                    RegistryRequestView::Manifest { reference: first, .. },
                    RegistryRequestView::Manifest { reference: second, .. },
                ) => {
                    &&& first.len() == second.len()
                    &&& forall|k: int|
                        0 <= k < first.len() && ('a' <= #[trigger] first[k] <= 'z' || 'A'
                            <= first[k] <= 'Z' || '0' <= first[k] <= '9' || first[k] == '.'
                            || first[k] == '-') ==> first[k] == second[k]
                },
                _ => false,
            }
        }),
{
    reveal_strlit("manifests");
    reveal_strlit("blobs");
    assert("manifests"@.len() == 9 && "blobs"@.len() == 5);
    let asked_target = normalized(setup.hosts, target_of(path));
    let other_target = normalized(setup.hosts, target_of(other_path));
    let host = setup.hosts[upstream_index(setup.hosts, asked_target.namespace)->0].name;
    let other_host = setup.hosts[upstream_index(setup.hosts, other_target.namespace)->0].name;
    let asked = registry_request_of(asked_target.path)->0;
    let other = registry_request_of(other_target.path)->0;
    let (kind, name, reference) = match asked {
        RegistryRequestView::Blob { name, digest } => ("blobs"@, name, digest),
        RegistryRequestView::Manifest { name, reference } => ("manifests"@, name, reference),
        RegistryRequestView::Ping => (seq![], seq![], seq![]),
    };
    let (other_kind, other_name, other_reference) = match other {
        RegistryRequestView::Blob { name, digest } => ("blobs"@, name, digest),
        RegistryRequestView::Manifest { name, reference } => ("manifests"@, name, reference),
        RegistryRequestView::Ping => (seq![], seq![], seq![]),
    };
    law_shared_path_means_like_names(
        setup.cache_dir,
        host,
        kind,
        name,
        reference,
        other_host,
        other_kind,
        other_name,
        other_reference,
    );
}

/// A request to a registry is read without its query, and with the namespace taken out of
/// its path. If it asks for nothing it is not found; else, if there is no registry for its
/// namespace, it is refused; else that registry is asked.
pub proof fn law_requests_are_refused_in_order(setup: Setup, method: Seq<char>, path: Seq<char>)
    ensures
        ({
            let target = normalized(setup.hosts, target_of(path));
            let request = registry_request_of(target.path);
            let index = upstream_index(setup.hosts, target.namespace);
            let plan = registry_plan(setup, method, path);
            &&& request is None ==> plan == (RegistryPlanView {
                upstream: None,
                task: RegistryTaskView::Respond(
                    text_response("404 Not Found"@, "not found\n"@),
                ),
            })
            &&& request is Some && index is None ==> plan == (RegistryPlanView {
                upstream: None,
                task: RegistryTaskView::Respond(
                    text_response(
                        "502 Bad Gateway"@,
                        "no matching upstream host configured\n"@,
                    ),
                ),
            })
            &&& request is Some && index is Some ==> {
                &&& plan.upstream matches Some((host, namespace))
                &&& host == setup.hosts[index->0]
                &&& target.namespace is Some ==> target.namespace == Some(namespace)
                &&& target.namespace is None ==> namespace == "docker.io"@
                &&& plan.task == registry_task(
                    setup,
                    setup.hosts[index->0],
                    method,
                    target.path,
                    request->0,
                )
            }
        }),
{
}

/// What each request leads to: `CONNECT` a tunnel to its target, if that has a port; the
/// health check a short text; `/` and `/ui` the list of the cache; a deletion the deletion
/// that its path asks for; any other `GET` or `HEAD` a request to a registry. A tunnel whose
/// other end was reached is announced, one whose other end was not is refused.
pub proof fn law_what_requests_lead_to(
    style: PathStyle,
    setup: Setup,
    method: Seq<char>,
    path: Seq<char>,
)
    ensures
        method == "CONNECT"@ && path.contains(':') ==> task_of(style, setup, method, path)
            == (TaskView::Tunnel { target: path }),
        method == "CONNECT"@ && !path.contains(':') ==> task_of(style, setup, method, path)
            == TaskView::Respond(
            text_response("400 Bad Request"@, "CONNECT target must include a port\n"@),
        ),
        method == "GET"@ && path == "/health"@ ==> task_of(style, setup, method, path)
            == TaskView::Respond(text_response("200 OK"@, "ok\n"@)),
        method == "GET"@ && (path == "/"@ || path == "/ui"@) ==> task_of(
            style,
            setup,
            method,
            path,
        ) == TaskView::List,
        method == "POST"@ && "/ui/delete"@.is_prefix_of(path) ==> task_of(
            style,
            setup,
            method,
            path,
        ) == TaskView::Delete(delete_plan(style, setup.cache_dir, path)),
        (method == "GET"@ && path != "/health"@ && path != "/"@ && path != "/ui"@) || method
            == "HEAD"@ ==> task_of(style, setup, method, path) == TaskView::Registry(
            registry_plan(setup, method, path),
        ),
        tunnel_answer(true) == encode_utf8("HTTP/1.1 200 Connection Established\r\n\r\n"@),
        tunnel_answer(false) == text_response("502 Bad Gateway"@, "upstream connect failed\n"@),
{
    law_routes(method, path);
}

/// What is seen of a task is all that is to be done: the response that is sent, the target of
/// the tunnel, or the registry with its namespace, the path of the entry and the exchange.
pub proof fn law_tasks_are_seen_whole(task: Task<'_>, plan: RegistryPlan<'_>)
    ensures
        match task {
            Task::Respond(bytes) => task@ == TaskView::Respond(bytes@),
            Task::Tunnel { target } => task@ == (TaskView::Tunnel { target: target@ }),
            Task::List => task@ == TaskView::List,
            Task::Delete(plan) => task@ == TaskView::Delete(plan@),
            Task::Registry(plan) => task@ == TaskView::Registry(plan@),
        },
        plan@.upstream == match plan.upstream {
            Some(upstream) => Some((upstream.host@, upstream.namespace@)),
            None => None,
        },
        plan@.task == match plan.task {
            RegistryTask::Respond(bytes) => RegistryTaskView::Respond(bytes@),
            RegistryTask::Serve { cache_path, exchange } => RegistryTaskView::Serve {
                cache_path: cache_path@,
                exchange: exchange@,
            },
        },
{
}

} // verus!
