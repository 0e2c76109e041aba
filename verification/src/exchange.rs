//! Serving a manifest or a blob: out of the cache if it is there, else from upstream.
//!
//! An exchange does not touch the disk or the network itself: it says what to do next
//! and is told how that went.

use reqwest::header::HeaderMap;
use vstd::prelude::*;

use crate::cache::{
    after_writing, entry_files, entry_read, file_in, files_view, is_stale, is_unservable,
    law_expiry_is_by_time, law_read_gives_back_what_was_written, write_cached_response, Age, CachedResponse, CachedView,
    EntryFile,
};
use crate::config::{as_text, DockerHost, HostView};
use crate::headers::{header_to_string, is_success};
use crate::registry::{
    fetch_bearer_token, fetch_method, fetch_method_for, token_in_reply, token_request_after,
    upstream_request, upstream_request_for, TokenRequest, TokenRequestView, UpstreamRequest,
    UpstreamRequestView,
};
use crate::response::{
    content_type, content_type_of, digest_of, registry_response, upstream_response,
    write_registry_response, write_upstream_response,
};
use crate::text::{opt_string_view, opt_view, same_text, trim};

verus! {

// ---------------------------------------------------------------------------
// Exchanges
// ---------------------------------------------------------------------------

/// The answer of an upstream registry.
pub struct UpstreamResponse {
    pub status: u16,
    pub headers: HeaderMap,
    pub body: Vec<u8>,
}

/// What is stored of the headers of an answer.
pub struct StoredHeaders {
    pub content_type: String,
    pub digest: Option<String>,
}

/// What is to be stored of the headers of an answer next to its body, if the answer is
/// one of success and is to be stored.
pub fn fetch_and_maybe_store(response: &UpstreamResponse, store: bool) -> (r: Option<StoredHeaders>)
    ensures
        match r {
            Some(stored) => {
                &&& 200 <= response.status < 300
                &&& store
                &&& stored.content_type@ == content_type_of(response.headers)
                &&& opt_string_view(stored.digest) == digest_of(response.headers)
            },
            None => !(200 <= response.status < 300 && store),
        },
{
    if is_success(response.status) && store {
        let content_type = content_type(&response.headers);
        let digest = header_to_string(&response.headers, "docker-content-digest");
        Some(StoredHeaders { content_type, digest })
    } else {
        None
    }
}

/// How far an exchange has got: what it waits for.
enum Stage {
    /// The entry in the cache.
    LookUp,
    /// The removal of an entry that has expired.
    Evict,
    /// The answer to the first request.
    Ask,
    /// The token that the first answer, of which this is the head, called for.
    Token { status: u16, headers: HeaderMap },
    /// The answer to the request with the token.
    Retry,
    /// The body of the answer of which this is the head.
    Read { status: u16, headers: HeaderMap },
    /// The storing of an answer.
    Store { response: UpstreamResponse, stored: StoredHeaders },
    /// Nothing.
    Done,
}

/// A manifest or a blob being served.
pub struct Exchange<'a> {
    host: &'a DockerHost,
    /// The method of the client's request.
    method: &'a str,
    /// The path at the registry.
    path: String,
    /// How long entries are kept, in seconds.
    ttl: u64,
    /// Whether what upstream answers is to be stored.
    store: bool,
    stage: Stage,
}

/// How something that was to be done went.
pub enum Event {
    /// What the cache holds.
    Found(Option<CachedResponse>),
    /// The entry is gone.
    Evicted,
    /// The head of an answer from upstream.
    Answered { status: u16, headers: HeaderMap },
    /// The fields of the reply to the request for a token.
    Token { token: Option<String>, access_token: Option<String> },
    /// The body of the latest answer from upstream that was kept.
    Body(Vec<u8>),
    /// The files of the entry are written.
    Stored,
}

/// What to do next.
pub enum Action {
    /// Remove the entry from the cache.
    Evict,
    /// Send a request upstream, in place of an earlier one.
    Ask(UpstreamRequest),
    /// Ask for a token; the answer at hand is kept.
    AskForToken(TokenRequest),
    /// Read the body of the answer at hand.
    ReadBody,
    /// Write the files of the entry.
    Store,
    /// Send this to the client; nothing more is to be done.
    Respond(Vec<u8>),
    /// Fail: the client's method is none.
    Reject,
    /// Fail: what happened is not what was to be done.
    Abort,
}

/// How far an exchange has got.
pub enum StageView {
    LookUp,
    Evict,
    Ask,
    Token { status: u16, headers: HeaderMap },
    Retry,
    Read { status: u16, headers: HeaderMap },
    Store { status: u16, headers: HeaderMap, body: Seq<u8> },
    Done,
}

/// What an exchange is about.
pub struct ExchangeView {
    pub host: HostView,
    pub method: Seq<char>,
    pub path: Seq<char>,
    pub ttl: u64,
    pub store: bool,
}

/// How something went.
pub enum EventView {
    Found(Option<(CachedView, Option<Age>)>),
    Evicted,
    Answered { status: u16, headers: HeaderMap },
    Token { token: Option<Seq<char>>, access_token: Option<Seq<char>> },
    Body(Seq<u8>),
    Stored,
}

/// What to do next.
pub enum ActionView {
    Evict,
    Ask(UpstreamRequestView),
    AskForToken(TokenRequestView),
    ReadBody,
    Store,
    Respond(Seq<u8>),
    Reject,
    Abort,
}

impl Stage {
    /// The answer to store goes by the content type and digest in its headers.
    spec fn wf(self) -> bool {
        match self {
            Stage::Store { response, stored } => stored.content_type@ == content_type_of(
                response.headers,
            ) && opt_string_view(stored.digest) == digest_of(response.headers),
            _ => true,
        }
    }
}

impl Stage {
    /// How far an exchange at this stage has got.
    spec fn view(self) -> StageView {
        match self {
            Stage::LookUp => StageView::LookUp,
            Stage::Evict => StageView::Evict,
            Stage::Ask => StageView::Ask,
            Stage::Token { status, headers } => StageView::Token { status, headers },
            Stage::Retry => StageView::Retry,
            Stage::Read { status, headers } => StageView::Read { status, headers },
            Stage::Store { response, .. } => StageView::Store {
                status: response.status,
                headers: response.headers,
                body: response.body@,
            },
            Stage::Done => StageView::Done,
        }
    }
}

impl<'a> View for Exchange<'a> {
    type V = ExchangeView;

    closed spec fn view(&self) -> ExchangeView {
        ExchangeView {
            host: self.host@,
            method: self.method@,
            path: self.path@,
            ttl: self.ttl,
            store: self.store,
        }
    }
}

impl View for Event {
    type V = EventView;

    open spec fn view(&self) -> EventView {
        match *self {
            Event::Found(None) => EventView::Found(None),
            Event::Found(Some(cached)) => EventView::Found(Some((cached@, cached.age))),
            Event::Evicted => EventView::Evicted,
            Event::Answered { status, headers } => EventView::Answered { status, headers },
            Event::Token { token, access_token } => EventView::Token {
                token: opt_string_view(token),
                access_token: opt_string_view(access_token),
            },
            Event::Body(body) => EventView::Body(body@),
            Event::Stored => EventView::Stored,
        }
    }
}

impl View for Action {
    type V = ActionView;

    open spec fn view(&self) -> ActionView {
        match *self {
            Action::Evict => ActionView::Evict,
            Action::Ask(request) => ActionView::Ask(request@),
            Action::AskForToken(request) => ActionView::AskForToken(request@),
            Action::ReadBody => ActionView::ReadBody,
            Action::Store => ActionView::Store,
            Action::Respond(bytes) => ActionView::Respond(bytes@),
            Action::Reject => ActionView::Reject,
            Action::Abort => ActionView::Abort,
        }
    }
}

// ---------------------------------------------------------------------------
// What happens when
// ---------------------------------------------------------------------------

/// Whether the client asked for the head only.
pub open spec fn head_only(exchange: ExchangeView) -> bool {
    exchange.method == "HEAD"@
}

/// Sending the request upstream, with a token if there is one.
pub open spec fn asking(exchange: ExchangeView, bearer: Option<Seq<char>>) -> (
    StageView,
    ActionView,
) {
    match fetch_method_for(exchange.method, exchange.store) {
        Some(method) => (
            if bearer is Some {
                StageView::Retry
            } else {
                StageView::Ask
            },
            ActionView::Ask(upstream_request_for(exchange.host, method, exchange.path, bearer)),
        ),
        None => (StageView::Done, ActionView::Reject),
    }
}

/// Handing out what the cache holds, unless it may no longer be served.
pub open spec fn looked_up(
    exchange: ExchangeView,
    found: Option<(CachedView, Option<Age>)>,
) -> (StageView, ActionView) {
    match found {
        Some((cached, age)) => if is_unservable(age, exchange.ttl) {
            (StageView::Evict, ActionView::Evict)
        } else {
            (
                StageView::Done,
                ActionView::Respond(
                    registry_response(
                        "200 OK"@,
                        cached.content_type,
                        cached.digest,
                        cached.body,
                        head_only(exchange),
                    ),
                ),
            )
        },
        None => asking(exchange, None),
    }
}

/// Passing on an answer.
pub open spec fn passing_on(
    exchange: ExchangeView,
    status: u16,
    headers: HeaderMap,
    body: Seq<u8>,
) -> (StageView, ActionView) {
    (
        StageView::Done,
        ActionView::Respond(upstream_response(status, headers, body, head_only(exchange))),
    )
}

/// Whether an answer is stored: it is one of success, and is to be.
pub open spec fn is_stored(exchange: ExchangeView, status: u16) -> bool {
    200 <= status < 300 && exchange.store
}

/// What an exchange does next, and what it waits for then.
pub open spec fn next(exchange: ExchangeView, stage: StageView, event: EventView) -> (
    StageView,
    ActionView,
) {
    match (stage, event) {
        (StageView::LookUp, EventView::Found(found)) => looked_up(exchange, found),
        (StageView::Evict, EventView::Evicted) => asking(exchange, None),
        (StageView::Ask, EventView::Answered { status, headers }) => {
            match token_request_after(exchange.host, status, headers) {
                Some(request) => (
                    StageView::Token { status, headers },
                    ActionView::AskForToken(request),
                ),
                None => (StageView::Read { status, headers }, ActionView::ReadBody),
            }
        },
        (StageView::Token { status, headers }, EventView::Token { token, access_token }) => {
            if token is Some {
                asking(exchange, token)
            } else if access_token is Some {
                asking(exchange, access_token)
            } else {
                (StageView::Read { status, headers }, ActionView::ReadBody)
            }
        },
        (StageView::Retry, EventView::Answered { status, headers }) => (
            StageView::Read { status, headers },
            ActionView::ReadBody,
        ),
        (StageView::Read { status, headers }, EventView::Body(body)) => if is_stored(
            exchange,
            status,
        ) {
            (StageView::Store { status, headers, body }, ActionView::Store)
        } else {
            passing_on(exchange, status, headers, body)
        },
        (StageView::Store { status, headers, body }, EventView::Stored) => passing_on(
            exchange,
            status,
            headers,
            body,
        ),
        _ => (StageView::Done, ActionView::Abort),
    }
}

impl<'a> Exchange<'a> {
    #[verifier::type_invariant]
    spec fn inv(self) -> bool {
        self.stage.wf()
    }

    /// How far the exchange has got.
    pub closed spec fn stage(self) -> StageView {
        self.stage@
    }

    /// A manifest or a blob to be served, of which the cache is asked first.
    pub fn new(host: &'a DockerHost, method: &'a str, path: String, ttl: u64, store: bool) -> (r:
        Exchange<'a>)
        ensures
            r@ == (ExchangeView { host: host@, method: method@, path: path@, ttl, store }),
            r.stage() == StageView::LookUp,
    {
        Exchange { host, method, path, ttl, store, stage: Stage::LookUp }
    }

    /// The path at the registry.
    pub fn path(&self) -> (r: &str)
        ensures
            r@ == self@.path,
    {
        self.path.as_str()
    }

    /// Sends the request upstream, with a token if there is one.
    fn ask(&self, bearer: Option<&str>) -> (r: (Stage, Action))
        ensures
            (r.0@, r.1@) == asking(self@, opt_view(bearer)),
            r.0.wf(),
    {
        match fetch_method(self.method, self.store) {
            Some(method) => {
                let request = upstream_request(
                    self.host,
                    method.as_str(),
                    self.path.as_str(),
                    bearer,
                );
                let stage = if bearer.is_some() {
                    Stage::Retry
                } else {
                    Stage::Ask
                };
                (stage, Action::Ask(request))
            },
            None => (Stage::Done, Action::Reject),
        }
    }

    /// Hands out what the cache holds, unless it may no longer be served.
    fn serve_cached_or_fetch(&self, found: Option<CachedResponse>) -> (r: (Stage, Action))
        ensures
            (r.0@, r.1@) == looked_up(
                self@,
                match found {
                    Some(cached) => Some((cached@, cached.age)),
                    None => None,
                },
            ),
            r.0.wf(),
    {
        match found {
            Some(cached) => {
                if is_stale(&cached, self.ttl) {
                    return (Stage::Evict, Action::Evict);
                }
                let mut out: Vec<u8> = Vec::new();
                write_registry_response(
                    &mut out,
                    "200 OK",
                    cached.content_type.as_str(),
                    as_text(&cached.digest),
                    cached.body.as_slice(),
                    same_text(self.method, "HEAD"),
                );
                proof {
                    let expected = registry_response(
                        "200 OK"@,
                        cached@.content_type,
                        cached@.digest,
                        cached@.body,
                        head_only(self@),
                    );
                    assert(Seq::<u8>::empty() + expected =~= expected);
                }
                (Stage::Done, Action::Respond(out))
            },
            None => self.ask(None),
        }
    }

    /// Passes on an answer.
    fn pass_on(&self, response: &UpstreamResponse) -> (r: (Stage, Action))
        ensures
            (r.0@, r.1@) == passing_on(self@, response.status, response.headers, response.body@),
            r.0.wf(),
    {
        let mut out: Vec<u8> = Vec::new();
        write_upstream_response(
            &mut out,
            response.status,
            &response.headers,
            response.body.as_slice(),
            same_text(self.method, "HEAD"),
        );
        proof {
            let expected = upstream_response(
                response.status,
                response.headers,
                response.body@,
                head_only(self@),
            );
            assert(Seq::<u8>::empty() + expected =~= expected);
        }
        (Stage::Done, Action::Respond(out))
    }

    /// Stores an answer, if it is to be, before it is passed on.
    fn store_or_pass_on(&self, response: UpstreamResponse) -> (r: (Stage, Action))
        ensures
            (r.0@, r.1@) == (if is_stored(self@, response.status) {
                (
                    StageView::Store {
                        status: response.status,
                        headers: response.headers,
                        body: response.body@,
                    },
                    ActionView::Store,
                )
            } else {
                passing_on(self@, response.status, response.headers, response.body@)
            }),
            r.0.wf(),
    {
        match fetch_and_maybe_store(&response, self.store) {
            Some(stored) => (Stage::Store { response, stored }, Action::Store),
            None => self.pass_on(&response),
        }
    }

    /// Takes note of how something went, and says what to do next.
    pub fn step(&mut self, event: Event) -> (action: Action)
        ensures
            final(self)@ == old(self)@,
            (final(self).stage(), action@) == next(old(self)@, old(self).stage(), event@),
    {
        proof {
            use_type_invariant(&*self);
        }
        let mut stage = Stage::Done;
        core::mem::swap(&mut self.stage, &mut stage);
        let (next_stage, action) = match (stage, event) {
            (Stage::LookUp, Event::Found(found)) => self.serve_cached_or_fetch(found),
            (Stage::Evict, Event::Evicted) => self.ask(None),
            (Stage::Ask, Event::Answered { status, headers }) => {
                match fetch_bearer_token(self.host, status, &headers) {
                    Some(request) => (
                        Stage::Token { status, headers },
                        Action::AskForToken(request),
                    ),
                    None => (Stage::Read { status, headers }, Action::ReadBody),
                }
            },
            (Stage::Token { status, headers }, Event::Token { token, access_token }) => {
                let token = token_in_reply(token, access_token);
                match &token {
                    Some(token) => self.ask(Some(token.as_str())),
                    None => (Stage::Read { status, headers }, Action::ReadBody),
                }
            },
            (Stage::Retry, Event::Answered { status, headers }) => (
                Stage::Read { status, headers },
                Action::ReadBody,
            ),
            (Stage::Read { status, headers }, Event::Body(body)) => {
                self.store_or_pass_on(UpstreamResponse { status, headers, body })
            },
            (Stage::Store { response, .. }, Event::Stored) => self.pass_on(&response),
            _ => (Stage::Done, Action::Abort),
        };
        self.stage = next_stage;
        action
    }

    /// The files to write for the answer that is to be stored; none at any other stage.
    pub fn files(&self) -> (r: Vec<EntryFile<'_>>)
        ensures
            match self.stage() {
                StageView::Store { headers, body, .. } => files_view(r@) == entry_files(
                    content_type_of(headers),
                    digest_of(headers),
                    body,
                ),
                _ => r@.len() == 0,
            },
    {
        proof {
            use_type_invariant(self);
        }
        match &self.stage {
            Stage::Store { response, stored } => write_cached_response(
                stored.content_type.as_str(),
                as_text(&stored.digest),
                response.body.as_slice(),
            ),
            _ => Vec::new(),
        }
    }
}

// ---------------------------------------------------------------------------
// Laws
// ---------------------------------------------------------------------------

/// What an exchange does, from a stage on, as things happen.
pub open spec fn run(exchange: ExchangeView, stage: StageView, events: Seq<EventView>) -> Seq<
    ActionView,
>
    decreases events.len(),
{
    if events.len() == 0 {
        seq![]
    } else {
        let (after, action) = next(exchange, stage, events[0]);
        seq![action] + run(exchange, after, events.drop_first())
    }
}

/// Whether an action needs the network.
pub open spec fn goes_upstream(action: ActionView) -> bool {
    action is Ask || action is AskForToken || action is ReadBody
}

/// The response to an entry in the cache.
pub open spec fn cached_response(exchange: ExchangeView, cached: CachedView) -> Seq<u8> {
    registry_response(
        "200 OK"@,
        cached.content_type,
        cached.digest,
        cached.body,
        head_only(exchange),
    )
}

/// A finished exchange does nothing more.
proof fn lemma_done_is_final(exchange: ExchangeView, events: Seq<EventView>)
    ensures
        run(exchange, StageView::Done, events).len() == events.len(),
        forall|i: int|
            0 <= i < events.len() ==> #[trigger] run(exchange, StageView::Done, events)[i]
                == ActionView::Abort,
    decreases events.len(),
{
    if events.len() > 0 {
        lemma_done_is_final(exchange, events.drop_first());
    }
}

/// What is in the cache and may still be served is handed out at once, and upstream is
/// not asked for anything, whatever happens after.
pub proof fn law_fresh_entry_needs_no_upstream(
    exchange: ExchangeView,
    cached: CachedView,
    age: Option<Age>,
    later: Seq<EventView>,
)
    requires
        !is_unservable(age, exchange.ttl),
    ensures
        ({
            let actions = run(
                exchange,
                StageView::LookUp,
                seq![EventView::Found(Some((cached, age)))] + later,
            );
            &&& actions[0] == ActionView::Respond(cached_response(exchange, cached))
            &&& forall|i: int| 0 <= i < actions.len() ==> !goes_upstream(#[trigger] actions[i])
        }),
{
    let events = seq![EventView::Found(Some((cached, age)))] + later;
    assert(events.drop_first() =~= later);
    lemma_done_is_final(exchange, later);
    let actions = run(exchange, StageView::LookUp, events);
    let rest = run(exchange, StageView::Done, later);
    assert(actions == seq![ActionView::Respond(cached_response(exchange, cached))] + rest);
    assert forall|i: int| 0 <= i < actions.len() implies !goes_upstream(#[trigger] actions[i]) by {
        if i > 0 {
            assert(actions[i] == rest[i - 1]);
        }
    }
}

/// An entry that may no longer be served is removed, and then asked for upstream as if
/// it had not been there.
pub proof fn law_expired_entry_is_fetched_anew(
    exchange: ExchangeView,
    cached: CachedView,
    age: Option<Age>,
    later: Seq<EventView>,
)
    requires
        is_unservable(age, exchange.ttl),
    ensures
        run(
            exchange,
            StageView::LookUp,
            seq![EventView::Found(Some((cached, age))), EventView::Evicted] + later,
        ) == seq![ActionView::Evict] + run(
            exchange,
            StageView::LookUp,
            seq![EventView::Found(None)] + later,
        ),
{
    let events = seq![EventView::Found(Some((cached, age))), EventView::Evicted] + later;
    let other = seq![EventView::Found(None)] + later;
    assert(events.drop_first().drop_first() =~= later);
    assert(events.drop_first()[0] == EventView::Evicted);
    assert(other.drop_first() =~= later);
    reveal_with_fuel(run, 3);
}

/// What is not in the cache is fetched with `GET`, stored if that succeeds and it is to
/// be, and passed on.
pub proof fn law_missing_entry_is_fetched_and_stored(
    exchange: ExchangeView,
    status: u16,
    headers: HeaderMap,
    body: Seq<u8>,
)
    requires
        exchange.store,
        200 <= status < 300,
    ensures
        run(
            exchange,
            StageView::LookUp,
            seq![
                EventView::Found(None),
                EventView::Answered { status, headers },
                EventView::Body(body),
                EventView::Stored,
            ],
        ) == seq![
            ActionView::Ask(upstream_request_for(exchange.host, "GET"@, exchange.path, None)),
            ActionView::ReadBody,
            ActionView::Store,
            ActionView::Respond(upstream_response(status, headers, body, head_only(exchange))),
        ],
{
    let events = seq![
        EventView::Found(None),
        EventView::Answered { status, headers },
        EventView::Body(body),
        EventView::Stored,
    ];
    lemma_run_of_four(exchange, StageView::LookUp, events);
}

/// A run through four events.
proof fn lemma_run_of_four(exchange: ExchangeView, stage: StageView, events: Seq<EventView>)
    requires
        events.len() == 4,
    ensures
        ({
            let (s1, a1) = next(exchange, stage, events[0]);
            let (s2, a2) = next(exchange, s1, events[1]);
            let (s3, a3) = next(exchange, s2, events[2]);
            let (s4, a4) = next(exchange, s3, events[3]);
            run(exchange, stage, events) == seq![a1, a2, a3, a4]
        }),
{
    let (s1, a1) = next(exchange, stage, events[0]);
    let (s2, a2) = next(exchange, s1, events[1]);
    let (s3, a3) = next(exchange, s2, events[2]);
    let (s4, a4) = next(exchange, s3, events[3]);
    let e1 = events.drop_first();
    let e2 = e1.drop_first();
    let e3 = e2.drop_first();
    let e4 = e3.drop_first();
    assert(e1[0] == events[1] && e2[0] == events[2] && e3[0] == events[3]);
    assert(run(exchange, s4, e4) =~= seq![]);
    assert(run(exchange, s3, e3) =~= seq![a4]);
    assert(run(exchange, s2, e2) =~= seq![a3, a4]);
    assert(run(exchange, s1, e1) =~= seq![a2, a3, a4]);
    assert(run(exchange, stage, events) =~= seq![a1, a2, a3, a4]);
}

/// An answer that is no success, or is not to be stored, is passed on and not stored.
pub proof fn law_other_answers_are_not_stored(
    exchange: ExchangeView,
    status: u16,
    headers: HeaderMap,
    body: Seq<u8>,
)
    requires
        !exchange.store || status < 200 || 300 <= status,
    ensures
        next(exchange, StageView::Read { status, headers }, EventView::Body(body)) == (
            StageView::Done,
            ActionView::Respond(upstream_response(status, headers, body, head_only(exchange))),
        ),
{
}

/// What was stored is what the next exchange for it hands out, as long as it may be
/// served: the same body, and the content type and digest without white space around
/// them.
pub proof fn law_stored_answer_is_served_again(
    dir: Map<Seq<char>, Seq<u8>>,
    headers: HeaderMap,
    body: Seq<u8>,
    again: ExchangeView,
    age: Option<Age>,
)
    requires
        !is_unservable(age, again.ttl),
        digest_of(headers) is None ==> !dir.contains_key("digest"@),
    ensures
        ({
            let after = after_writing(
                dir,
                entry_files(content_type_of(headers), digest_of(headers), body),
            );
            let cached = entry_read(
                file_in(after, "content-type"@),
                file_in(after, "digest"@),
                body,
            );
            &&& file_in(after, "body"@) == Some(body)
            &&& next(again, StageView::LookUp, EventView::Found(Some((cached, age)))) == (
                StageView::Done,
                ActionView::Respond(
                    registry_response(
                        "200 OK"@,
                        trim(content_type_of(headers)),
                        match digest_of(headers) {
                            Some(digest) => Some(trim(digest)),
                            None => None,
                        },
                        body,
                        head_only(again),
                    ),
                ),
            )
        }),
{
    law_read_gives_back_what_was_written(
        dir,
        content_type_of(headers),
        digest_of(headers),
        body,
    );
}

/// An answer that asks for authorisation with a challenge that names a realm leads to a
/// request for a token, and a token to a second request, which presents it.
pub proof fn law_challenge_is_answered(
    exchange: ExchangeView,
    headers: HeaderMap,
    request: TokenRequestView,
    token: Seq<char>,
    access_token: Option<Seq<char>>,
)
    requires
        token_request_after(exchange.host, 401, headers) == Some(request),
        fetch_method_for(exchange.method, exchange.store) is Some,
    ensures
        ({
            let method = fetch_method_for(exchange.method, exchange.store)->0;
            let (after, action) = next(
                exchange,
                StageView::Ask,
                EventView::Answered { status: 401, headers },
            );
            &&& action == ActionView::AskForToken(request)
            &&& next(
                exchange,
                after,
                EventView::Token { token: Some(token), access_token },
            ) == (
                StageView::Retry,
                ActionView::Ask(
                    upstream_request_for(exchange.host, method, exchange.path, Some(token)),
                ),
            )
        }),
{
}

/// How far a stage is from the start.
pub open spec fn progress(stage: StageView) -> int {
    match stage {
        StageView::LookUp => 0,
        StageView::Evict => 1,
        StageView::Ask => 2,
        StageView::Token { .. } => 3,
        StageView::Retry => 4,
        StageView::Read { .. } => 5,
        StageView::Store { .. } => 6,
        StageView::Done => 7,
    }
}

/// Every step of an exchange that has not ended takes it further, so that it ends after
/// seven steps at most: with a response or a failure, after which nothing more is done.
pub proof fn law_exchange_ends(exchange: ExchangeView, stage: StageView, event: EventView)
    ensures
        stage != StageView::Done ==> progress(stage) < progress(next(exchange, stage, event).0)
            <= 7,
        stage == StageView::Done ==> next(exchange, stage, event) == (
            StageView::Done,
            ActionView::Abort,
        ),
        next(exchange, stage, event).0 is Done <==> {
            let action = next(exchange, stage, event).1;
            action is Respond || action is Reject || action is Abort
        },
{
}

/// How many of the actions are requests for an answer from upstream.
pub open spec fn asks(actions: Seq<ActionView>) -> nat
    decreases actions.len(),
{
    if actions.len() == 0 {
        0
    } else {
        asks(actions.drop_first()) + (if actions[0] is Ask {
            1nat
        } else {
            0
        })
    }
}

/// How many of the actions are requests for a token.
pub open spec fn token_asks(actions: Seq<ActionView>) -> nat
    decreases actions.len(),
{
    if actions.len() == 0 {
        0
    } else {
        token_asks(actions.drop_first()) + (if actions[0] is AskForToken {
            1nat
        } else {
            0
        })
    }
}

/// From each stage on, so many requests may still be sent.
proof fn lemma_asks_left(exchange: ExchangeView, stage: StageView, events: Seq<EventView>)
    ensures
        asks(run(exchange, stage, events)) <= (if progress(stage) < 2 {
            2nat
        } else if progress(stage) < 4 {
            1
        } else {
            0
        }),
        token_asks(run(exchange, stage, events)) <= (if progress(stage) < 3 {
            1nat
        } else {
            0
        }),
    decreases events.len(),
{
    if events.len() > 0 {
        let (after, action) = next(exchange, stage, events[0]);
        let rest = run(exchange, after, events.drop_first());
        lemma_asks_left(exchange, after, events.drop_first());
        assert((seq![action] + rest).drop_first() =~= rest);
    }
}

/// Whatever happens, upstream is asked for an answer twice at most, and for a token once
/// at most.
pub proof fn law_upstream_is_asked_twice_at_most(exchange: ExchangeView, events: Seq<EventView>)
    ensures
        asks(run(exchange, StageView::LookUp, events)) <= 2,
        token_asks(run(exchange, StageView::LookUp, events)) <= 1,
{
    lemma_asks_left(exchange, StageView::LookUp, events);
}

/// A run through an event and then others.
proof fn lemma_run_first(
    exchange: ExchangeView,
    stage: StageView,
    event: EventView,
    later: Seq<EventView>,
)
    ensures
        ({
            let (after, action) = next(exchange, stage, event);
            run(exchange, stage, seq![event] + later) == seq![action] + run(exchange, after, later)
        }),
{
    assert((seq![event] + later).drop_first() =~= later);
}

/// What is not in the cache is asked for upstream, without a token. An answer that calls for
/// no token is then read and, if its status is one of success and it is to be stored, stored
/// before it is passed on, else passed on at once: with its own status, headers and body,
/// and only its head if the client's method is `HEAD`.
pub proof fn law_unchallenged_answer_is_passed_on(
    exchange: ExchangeView,
    method: Seq<char>,
    status: u16,
    headers: HeaderMap,
    body: Seq<u8>,
)
    requires
        fetch_method_for(exchange.method, exchange.store) == Some(method),
        token_request_after(exchange.host, status, headers) is None,
    ensures
        run(
            exchange,
            StageView::LookUp,
            seq![
                EventView::Found(None),
                EventView::Answered { status, headers },
                EventView::Body(body),
                EventView::Stored,
            ],
        ) == seq![
            ActionView::Ask(upstream_request_for(exchange.host, method, exchange.path, None)),
            ActionView::ReadBody,
        ] + (if 200 <= status < 300 && exchange.store {
            seq![
                ActionView::Store,
                ActionView::Respond(
                    upstream_response(status, headers, body, exchange.method == "HEAD"@),
                ),
            ]
        } else {
            seq![
                ActionView::Respond(
                    upstream_response(status, headers, body, exchange.method == "HEAD"@),
                ),
                ActionView::Abort,
            ]
        }),
{
    lemma_run_of_four(
        exchange,
        StageView::LookUp,
        seq![
            EventView::Found(None),
            EventView::Answered { status, headers },
            EventView::Body(body),
            EventView::Stored,
        ],
    );
}

/// Whatever is answered to the request that presents the token is treated like an answer to
/// an exchange that was never challenged: it is read and, if its own status is one of success
/// and it is to be stored, stored before it is passed on, else passed on at once, with that
/// status and its own headers and body.
pub proof fn law_answer_to_the_token_is_passed_on(
    exchange: ExchangeView,
    method: Seq<char>,
    challenge: HeaderMap,
    request: TokenRequestView,
    reply: (Option<Seq<char>>, Option<Seq<char>>),
    token: Seq<char>,
    status: u16,
    headers: HeaderMap,
    body: Seq<u8>,
)
    requires
        fetch_method_for(exchange.method, exchange.store) == Some(method),
        token_request_after(exchange.host, 401, challenge) == Some(request),
        reply.0 == Some(token) || (reply.0 is None && reply.1 == Some(token)),
    ensures
        ({
            let challenged = run(
                exchange,
                StageView::LookUp,
                seq![
                    EventView::Found(None),
                    EventView::Answered { status: 401, headers: challenge },
                    EventView::Token { token: reply.0, access_token: reply.1 },
                    EventView::Answered { status, headers },
                    EventView::Body(body),
                    EventView::Stored,
                ],
            );
            let unchallenged = run(
                exchange,
                StageView::LookUp,
                seq![
                    EventView::Found(None),
                    EventView::Answered { status, headers },
                    EventView::Body(body),
                    EventView::Stored,
                ],
            );
            &&& challenged == seq![
                ActionView::Ask(upstream_request_for(exchange.host, method, exchange.path, None)),
                ActionView::AskForToken(request),
                ActionView::Ask(
                    upstream_request_for(exchange.host, method, exchange.path, Some(token)),
                ),
                ActionView::ReadBody,
            ] + (if 200 <= status < 300 && exchange.store {
                seq![
                    ActionView::Store,
                    ActionView::Respond(
                        upstream_response(status, headers, body, exchange.method == "HEAD"@),
                    ),
                ]
            } else {
                seq![
                    ActionView::Respond(
                        upstream_response(status, headers, body, exchange.method == "HEAD"@),
                    ),
                    ActionView::Abort,
                ]
            })
            &&& token_request_after(exchange.host, status, headers) is None ==> challenged.skip(3)
                == unchallenged.skip(1)
        }),
{
    let asked = EventView::Found(None);
    let refused = EventView::Answered { status: 401, headers: challenge };
    let replied = EventView::Token { token: reply.0, access_token: reply.1 };
    let answered = EventView::Answered { status, headers };
    let read = EventView::Body(body);
    let late = seq![replied, answered, read, EventView::Stored];
    let waiting = StageView::Token { status: 401, headers: challenge };
    lemma_run_of_four(exchange, waiting, late);
    lemma_run_first(exchange, StageView::Ask, refused, late);
    lemma_run_first(exchange, StageView::LookUp, asked, seq![refused] + late);
    assert(seq![asked, refused, replied, answered, read, EventView::Stored] =~= seq![asked] + (
    seq![refused] + late));
    let rest = run(exchange, waiting, late);
    assert(run(exchange, StageView::LookUp, seq![asked] + (seq![refused] + late)) =~= seq![
        ActionView::Ask(upstream_request_for(exchange.host, method, exchange.path, None)),
        ActionView::AskForToken(request),
    ] + rest);
    if token_request_after(exchange.host, status, headers) is None {
        law_unchallenged_answer_is_passed_on(exchange, method, status, headers, body);
    }
}

/// If no token comes, the answer with the challenge is itself passed on, with its own
/// status, headers and body.
pub proof fn law_challenge_without_a_token_is_passed_on(
    exchange: ExchangeView,
    method: Seq<char>,
    challenge: HeaderMap,
    request: TokenRequestView,
    body: Seq<u8>,
)
    requires
        fetch_method_for(exchange.method, exchange.store) == Some(method),
        token_request_after(exchange.host, 401, challenge) == Some(request),
    ensures
        run(
            exchange,
            StageView::LookUp,
            seq![
                EventView::Found(None),
                EventView::Answered { status: 401, headers: challenge },
                EventView::Token { token: None, access_token: None },
                EventView::Body(body),
            ],
        ) == seq![
            ActionView::Ask(upstream_request_for(exchange.host, method, exchange.path, None)),
            ActionView::AskForToken(request),
            ActionView::ReadBody,
            ActionView::Respond(
                upstream_response(401, challenge, body, exchange.method == "HEAD"@),
            ),
        ],
{
    lemma_run_of_four(
        exchange,
        StageView::LookUp,
        seq![
            EventView::Found(None),
            EventView::Answered { status: 401, headers: challenge },
            EventView::Token { token: None, access_token: None },
            EventView::Body(body),
        ],
    );
}

/// What is written for an answer while it is to be stored is that very answer: what was
/// read of it, and its status and headers, are those with which it was answered, whether it
/// was the first answer or the one to the token.
pub proof fn law_what_is_stored_is_the_answer(
    exchange: ExchangeView,
    status: u16,
    headers: HeaderMap,
    body: Seq<u8>,
)
    requires
        200 <= status < 300,
        exchange.store,
    ensures
        ({
            let answered = EventView::Answered { status, headers };
            let first = next(exchange, StageView::Ask, answered).0;
            let second = next(exchange, StageView::Retry, answered).0;
            let kept = StageView::Store { status, headers, body };
            &&& next(exchange, first, EventView::Body(body)).0 == kept
            &&& next(exchange, second, EventView::Body(body)).0 == kept
        }),
{
}

/// An entry in the cache is handed out at once as long as it may be served, with its own
/// content type, digest and body, and only its head if the client's method is `HEAD`; one
/// that has outlived the time that entries are kept is removed.
pub proof fn law_entry_is_served_by_its_age(exchange: ExchangeView, cached: CachedView, age: Age)
    requires
        age.nanos < 1_000_000_000,
    ensures
        next(exchange, StageView::LookUp, EventView::Found(Some((cached, Some(age))))) == (if (
        exchange.ttl > 0 && age.secs * 1_000_000_000 + age.nanos <= exchange.ttl * 1_000_000_000) {
            (
                StageView::Done,
                ActionView::Respond(
                    registry_response(
                        "200 OK"@,
                        cached.content_type,
                        cached.digest,
                        cached.body,
                        exchange.method == "HEAD"@,
                    ),
                ),
            )
        } else {
            (StageView::Evict, ActionView::Evict)
        }),
        next(exchange, StageView::LookUp, EventView::Found(Some((cached, None)))) == (
            StageView::Evict,
            ActionView::Evict,
        ),
{
    law_expiry_is_by_time(age, exchange.ttl, exchange.ttl);
}

/// Every stage waits for one kind of event, and any other ends the exchange; one whose
/// method cannot be sent upstream ends as soon as upstream would be asked.
pub proof fn law_exchange_waits_for_one_event(
    exchange: ExchangeView,
    stage: StageView,
    event: EventView,
)
    ensures
        next(exchange, stage, event) == (StageView::Done, ActionView::Abort) <==> !(match stage {
            StageView::LookUp => event is Found,
            StageView::Evict => event is Evicted,
            StageView::Ask => event is Answered,
            StageView::Token { .. } => event is Token,
            StageView::Retry => event is Answered,
            StageView::Read { .. } => event is Body,
            StageView::Store { .. } => event is Stored,
            StageView::Done => false,
        }),
        fetch_method_for(exchange.method, exchange.store) is None ==> next(
            exchange,
            StageView::LookUp,
            EventView::Found(None),
        ) == (StageView::Done, ActionView::Reject),
{
}

/// An event is taken as what happened: a head with the very status and headers, each token
/// for what it is, a body with its bytes, and an entry of the cache with its age.
pub proof fn law_event_is_what_happened(event: Event)
    ensures
        match event {
            Event::Found(None) => event@ == EventView::Found(None),
            Event::Found(Some(cached)) => event@ == EventView::Found(
                Some(
                    (
                        CachedView {
                            content_type: cached.content_type@,
                            digest: match cached.digest {
                                Some(digest) => Some(digest@),
                                None => None,
                            },
                            body: cached.body@,
                        },
                        cached.age,
                    ),
                ),
            ),
            Event::Evicted => event@ == EventView::Evicted,
            Event::Answered { status, headers } => event@ == (EventView::Answered {
                status,
                headers,
            }),
            Event::Token { token, access_token } => event@ == (EventView::Token {
                token: match token {
                    Some(text) => Some(text@),
                    None => None,
                },
                access_token: match access_token {
                    Some(text) => Some(text@),
                    None => None,
                },
            }),
            Event::Body(body) => event@ == EventView::Body(body@),
            Event::Stored => event@ == EventView::Stored,
        },
{
}

/// An action means what it says: the request or response that it holds, and nothing else.
pub proof fn law_action_is_what_is_done(action: Action)
    ensures
        match action {
            Action::Evict => action@ == ActionView::Evict,
            Action::Ask(request) => action@ == ActionView::Ask(request@),
            Action::AskForToken(request) => action@ == ActionView::AskForToken(request@),
            Action::ReadBody => action@ == ActionView::ReadBody,
            Action::Store => action@ == ActionView::Store,
            Action::Respond(bytes) => action@ == ActionView::Respond(bytes@),
            Action::Reject => action@ == ActionView::Reject,
            Action::Abort => action@ == ActionView::Abort,
        },
{
}

} // verus!
