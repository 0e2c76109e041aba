//! What is asked of an upstream registry, and how it is authorised.

use reqwest::header::HeaderMap;
use vstd::prelude::*;

use crate::config::{DockerHost, HostView};
use crate::headers::{header_text, header_to_string, is_method, parse_method};
use crate::text::{
    after_prefix, is_whitespace, law_pieces, law_prefix_comes_off, lemma_split_once_char,
    lemma_split_once_char_of, only, opt_string_view, opt_view, pieces,
    same_text, split_at_each, split_once_at, split_once_char, strip_prefix, trim, trim_char,
    trim_char_text, trim_end_char, trim_end_char_text, trim_end_of, trim_start_of, trim_text,
    views,
};

verus! {

// ---------------------------------------------------------------------------
// Challenges
// ---------------------------------------------------------------------------

/// The key and value in a part of a challenge, without white space around them and
/// without quotes around the value.
pub open spec fn challenge_param(part: Seq<char>) -> Option<(Seq<char>, Seq<char>)> {
    match split_once_char(trim(part), '=') {
        Some((key, value)) => Some((trim(key), trim_char(trim(value), '"'))),
        None => None,
    }
}

/// The keys and values in the parts of a challenge, if every part has them.
pub open spec fn challenge_params(parts: Seq<Seq<char>>) -> Option<Seq<(Seq<char>, Seq<char>)>>
    decreases parts.len(),
{
    if parts.len() == 0 {
        Some(seq![])
    } else {
        match (challenge_param(parts[0]), challenge_params(parts.drop_first())) {
            (Some(param), Some(rest)) => Some(seq![param] + rest),
            _ => None,
        }
    }
}

/// The parameters of a challenge to present a bearer token: what stands between commas
/// after `Bearer `, each of the form `key=value`.
pub open spec fn bearer_challenge(header: Seq<char>) -> Option<Seq<(Seq<char>, Seq<char>)>> {
    match strip_prefix(header, "Bearer "@) {
        Some(challenge) => challenge_params(pieces(challenge, ',')),
        None => None,
    }
}

/// What pairs of strings hold.
pub open spec fn pair_views(v: Seq<(&str, &str)>) -> Seq<(Seq<char>, Seq<char>)> {
    v.map_values(|p: (&str, &str)| (p.0@, p.1@))
}

/// The parameters of a challenge to present a bearer token.
pub fn parse_bearer_challenge(header: &str) -> (r: Option<Vec<(&str, &str)>>)
    ensures
        match r {
            Some(params) => bearer_challenge(header@) == Some(pair_views(params@)),
            None => bearer_challenge(header@) is None,
        },
{
    let challenge = match after_prefix(header, "Bearer ") {
        Some(challenge) => challenge,
        None => {
            return None;
        },
    };
    let parts = split_at_each(challenge, ',');
    let n: usize = parts.len();
    let ghost all = views(parts@);
    let mut params: Vec<(&str, &str)> = Vec::new();
    assert(all.skip(0) =~= all);
    proof {
        if let Some(t) = challenge_params(all) {
            assert(pair_views(params@) + t =~= t);
        }
    }
    for i in 0..n
        invariant
            n == parts@.len(),
            all == views(parts@),
            bearer_challenge(header@) == challenge_params(all),
            match challenge_params(all.skip(i as int)) {
                Some(t) => challenge_params(all) == Some(pair_views(params@) + t),
                None => challenge_params(all) is None,
            },
    {
        let ghost before = params@;
        assert(all.skip(i as int).drop_first() =~= all.skip(i + 1));
        assert(all.skip(i as int)[0] == parts@[i as int]@);
        match split_once_at(trim_text(parts[i]), '=') {
            Some((key, value)) => {
                let key = trim_text(key);
                let value = trim_char_text(trim_text(value), '"');
                params.push((key, value));
                assert(pair_views(params@) =~= pair_views(before) + seq![(key@, value@)]);
                proof {
                    if let Some(t) = challenge_params(all.skip(i + 1)) {
                        assert(pair_views(before) + (seq![(key@, value@)] + t) =~= pair_views(
                            params@,
                        ) + t);
                    }
                }
            },
            None => {
                return None;
            },
        }
    }
    assert(all.skip(n as int).len() == 0);
    assert(pair_views(params@) + Seq::<(Seq<char>, Seq<char>)>::empty() =~= pair_views(params@));
    Some(params)
}

// ---------------------------------------------------------------------------
// Tokens
// ---------------------------------------------------------------------------

/// A user name and token to present.
pub struct Credentials {
    pub username: String,
    pub token: String,
}

/// What credentials are made of.
pub open spec fn credentials_view(c: Option<Credentials>) -> Option<(Seq<char>, Seq<char>)> {
    match c {
        Some(c) => Some((c.username@, c.token@)),
        None => None,
    }
}

/// The credentials of a registry, if it has both a user name and a token.
pub fn host_credentials(host: &DockerHost) -> (r: Option<Credentials>)
    ensures
        credentials_view(r) == host@.credentials(),
{
    match (&host.username, &host.token) {
        (Some(username), Some(token)) => Some(
            Credentials { username: username.clone(), token: token.clone() },
        ),
        _ => None,
    }
}

/// A request for a bearer token.
pub struct TokenRequest {
    /// Where to send it.
    pub realm: String,
    /// The query parameters to send along, in order.
    pub query: Vec<(String, String)>,
    /// The credentials to present, if any.
    pub credentials: Option<Credentials>,
}

/// What a request for a token is made of.
pub struct TokenRequestView {
    pub realm: Seq<char>,
    pub query: Seq<(Seq<char>, Seq<char>)>,
    pub credentials: Option<(Seq<char>, Seq<char>)>,
}

/// What pairs of owned strings hold.
pub open spec fn string_pair_views(v: Seq<(String, String)>) -> Seq<(Seq<char>, Seq<char>)> {
    v.map_values(|p: (String, String)| (p.0@, p.1@))
}

impl View for TokenRequest {
    type V = TokenRequestView;

    open spec fn view(&self) -> TokenRequestView {
        TokenRequestView {
            realm: self.realm@,
            query: string_pair_views(self.query@),
            credentials: credentials_view(self.credentials),
        }
    }
}

/// The value of the first parameter with this key.
pub open spec fn first_value(params: Seq<(Seq<char>, Seq<char>)>, key: Seq<char>) -> Option<
    Seq<char>,
>
    decreases params.len(),
{
    if params.len() == 0 {
        None
    } else if params[0].0 == key {
        Some(params[0].1)
    } else {
        first_value(params.drop_first(), key)
    }
}

/// The parameters with other keys, in order.
pub open spec fn other_params(params: Seq<(Seq<char>, Seq<char>)>, key: Seq<char>) -> Seq<
    (Seq<char>, Seq<char>),
>
    decreases params.len(),
{
    if params.len() == 0 {
        seq![]
    } else if params[0].0 == key {
        other_params(params.drop_first(), key)
    } else {
        seq![params[0]] + other_params(params.drop_first(), key)
    }
}

/// The request for a token that answers a challenge: to the realm that it names, with
/// its other parameters and the registry's credentials. There is none if the challenge
/// asks for something else or names no realm.
pub open spec fn token_request_for(host: HostView, header: Seq<char>) -> Option<TokenRequestView> {
    match bearer_challenge(header) {
        Some(params) => match first_value(params, "realm"@) {
            Some(realm) => Some(
                TokenRequestView {
                    realm,
                    query: other_params(params, "realm"@),
                    credentials: host.credentials(),
                },
            ),
            None => None,
        },
        None => None,
    }
}

/// The request for a token that answers a challenge.
pub fn token_request(host: &DockerHost, header: &str) -> (r: Option<TokenRequest>)
    ensures
        match r {
            Some(request) => token_request_for(host@, header@) == Some(request@),
            None => token_request_for(host@, header@) is None,
        },
{
    let params = match parse_bearer_challenge(header) {
        Some(params) => params,
        None => {
            return None;
        },
    };
    let n: usize = params.len();
    let ghost all = pair_views(params@);
    let mut realm: Option<String> = None;
    let mut query: Vec<(String, String)> = Vec::new();
    assert(all.skip(0) =~= all);
    assert(string_pair_views(query@) + other_params(all, "realm"@) =~= other_params(all, "realm"@));
    for i in 0..n
        invariant
            n == params@.len(),
            all == pair_views(params@),
            bearer_challenge(header@) == Some(all),
            first_value(all, "realm"@) == match realm {
                Some(value) => Some(value@),
                None => first_value(all.skip(i as int), "realm"@),
            },
            other_params(all, "realm"@) == string_pair_views(query@) + other_params(
                all.skip(i as int),
                "realm"@,
            ),
    {
        let ghost before = query@;
        assert(all.skip(i as int).drop_first() =~= all.skip(i + 1));
        let (key, value) = params[i];
        assert(all.skip(i as int)[0] == (key@, value@));
        if same_text(key, "realm") {
            if realm.is_none() {
                realm = Some(value.to_string());
            }
        } else {
            query.push((key.to_string(), value.to_string()));
            assert(string_pair_views(query@) =~= string_pair_views(before) + seq![(key@, value@)]);
            assert(string_pair_views(before) + (seq![(key@, value@)] + other_params(
                all.skip(i + 1),
                "realm"@,
            )) =~= string_pair_views(query@) + other_params(all.skip(i + 1), "realm"@));
        }
    }
    assert(all.skip(n as int).len() == 0);
    assert(string_pair_views(query@) + Seq::<(Seq<char>, Seq<char>)>::empty()
        =~= string_pair_views(query@));
    match realm {
        Some(realm) => Some(TokenRequest { realm, query, credentials: host_credentials(host) }),
        None => None,
    }
}

/// The token in a reply: the field `token`, else the field `access_token`.
pub fn token_in_reply(token: Option<String>, access_token: Option<String>) -> (r: Option<String>)
    ensures
        r == (if token is Some {
            token
        } else {
            access_token
        }),
{
    match token {
        Some(token) => Some(token),
        None => access_token,
    }
}

// ---------------------------------------------------------------------------
// Requests
// ---------------------------------------------------------------------------

/// How a request is authorised.
pub enum Authorization {
    Nothing,
    Basic(Credentials),
    Bearer(String),
}

/// How a request is authorised.
pub enum AuthorizationView {
    Nothing,
    Basic { username: Seq<char>, token: Seq<char> },
    Bearer { token: Seq<char> },
}

impl View for Authorization {
    type V = AuthorizationView;

    open spec fn view(&self) -> AuthorizationView {
        match self {
            Authorization::Nothing => AuthorizationView::Nothing,
            Authorization::Basic(c) => AuthorizationView::Basic {
                username: c.username@,
                token: c.token@,
            },
            Authorization::Bearer(token) => AuthorizationView::Bearer { token: token@ },
        }
    }
}

/// A request to an upstream registry.
pub struct UpstreamRequest {
    pub method: String,
    pub url: String,
    /// The types of content that are accepted.
    pub accept: &'static str,
    pub authorization: Authorization,
}

/// What a request to an upstream registry is made of.
pub struct UpstreamRequestView {
    pub method: Seq<char>,
    pub url: Seq<char>,
    pub accept: Seq<char>,
    pub authorization: AuthorizationView,
}

impl View for UpstreamRequest {
    type V = UpstreamRequestView;

    open spec fn view(&self) -> UpstreamRequestView {
        UpstreamRequestView {
            method: self.method@,
            url: self.url@,
            accept: self.accept@,
            authorization: self.authorization@,
        }
    }
}

/// The URL of a path at a registry.
pub open spec fn upstream_url(host: HostView, path: Seq<char>) -> Seq<char> {
    trim_end_char(host.url, '/') + path
}

/// How a request to a registry is authorised: by a bearer token if there is one, else
/// by the registry's credentials if it has both, else not at all.
pub open spec fn authorization_for(host: HostView, bearer: Option<Seq<char>>) -> AuthorizationView {
    match bearer {
        Some(token) => AuthorizationView::Bearer { token },
        None => match host.credentials() {
            Some((username, token)) => AuthorizationView::Basic { username, token },
            None => AuthorizationView::Nothing,
        },
    }
}

/// The types of content that are accepted: image indexes, manifests and blobs.
pub open spec fn accepted_types() -> Seq<char> {
    "application/vnd.oci.image.index.v1+json, application/vnd.oci.image.manifest.v1+json, application/vnd.docker.distribution.manifest.list.v2+json, application/vnd.docker.distribution.manifest.v2+json, application/octet-stream"@
}

/// A request to a registry.
pub open spec fn upstream_request_for(
    host: HostView,
    method: Seq<char>,
    path: Seq<char>,
    bearer: Option<Seq<char>>,
) -> UpstreamRequestView {
    UpstreamRequestView {
        method,
        url: upstream_url(host, path),
        accept: accepted_types(),
        authorization: authorization_for(host, bearer),
    }
}

/// A request to a registry.
pub fn upstream_request(host: &DockerHost, method: &str, path: &str, bearer: Option<&str>) -> (r:
    UpstreamRequest)
    ensures
        r@ == upstream_request_for(host@, method@, path@, opt_view(bearer)),
{
    let authorization = match bearer {
        Some(token) => Authorization::Bearer(token.to_string()),
        None => match host_credentials(host) {
            Some(credentials) => Authorization::Basic(credentials),
            None => Authorization::Nothing,
        },
    };
    UpstreamRequest {
        method: method.to_string(),
        url: trim_end_char_text(host.url.as_str(), '/').to_string().concat(path),
        accept: "application/vnd.oci.image.index.v1+json, application/vnd.oci.image.manifest.v1+json, application/vnd.docker.distribution.manifest.list.v2+json, application/vnd.docker.distribution.manifest.v2+json, application/octet-stream",
        authorization,
    }
}

/// The method of the request to the registry: `GET` if the response is to be stored,
/// else the client's, if it is one.
pub open spec fn fetch_method_for(method: Seq<char>, store: bool) -> Option<Seq<char>> {
    if store {
        Some("GET"@)
    } else if is_method(method) {
        Some(method)
    } else {
        None
    }
}

/// The method of the request to the registry.
pub fn fetch_method(method: &str, store: bool) -> (r: Option<String>)
    ensures
        opt_string_view(r) == fetch_method_for(method@, store),
{
    if store {
        Some("GET".to_string())
    } else {
        parse_method(method)
    }
}

/// The status code of an answer that asks for authorisation.
pub const UNAUTHORIZED: u16 = 401;

/// The request for a token that an answer calls for: one that asks for authorisation
/// with a challenge that names a realm.
pub open spec fn token_request_after(
    host: HostView,
    status: u16,
    headers: HeaderMap,
) -> Option<TokenRequestView> {
    if status != UNAUTHORIZED {
        None
    } else {
        match header_text(headers, "www-authenticate"@) {
            Some(challenge) => token_request_for(host, challenge),
            None => None,
        }
    }
}

/// The request for a token that an answer calls for.
pub fn fetch_bearer_token(host: &DockerHost, status: u16, headers: &HeaderMap) -> (r: Option<
    TokenRequest,
>)
    ensures
        match r {
            Some(request) => token_request_after(host@, status, *headers) == Some(request@),
            None => token_request_after(host@, status, *headers) is None,
        },
{
    if status != UNAUTHORIZED {
        return None;
    }
    match header_to_string(headers, "www-authenticate") {
        Some(challenge) => token_request(host, challenge.as_str()),
        None => None,
    }
}

// ---------------------------------------------------------------------------
// Laws
// ---------------------------------------------------------------------------

/// The credentials of a registry, if it has both a user name and a token, are presented
/// to it, until there is a bearer token, and wherever that is asked for; if it lacks one
/// of them, none are.
pub proof fn law_credentials_are_presented(
    host: HostView,
    method: Seq<char>,
    path: Seq<char>,
    bearer: Seq<char>,
    challenge: Seq<char>,
)
    ensures
        match (host.username, host.token) {
            (Some(username), Some(token)) => {
                &&& upstream_request_for(host, method, path, None).authorization
                    == (AuthorizationView::Basic { username, token })
                &&& token_request_for(host, challenge) matches Some(request)
                    ==> request.credentials == Some((username, token))
            },
            _ => {
                &&& upstream_request_for(host, method, path, None).authorization
                    == AuthorizationView::Nothing
                &&& token_request_for(host, challenge) matches Some(request)
                    ==> request.credentials is None
            },
        },
        upstream_request_for(host, method, path, Some(bearer)).authorization
            == (AuthorizationView::Bearer { token: bearer }),
{
}

/// Slashes at the end of a registry's URL make no difference.
pub proof fn law_trailing_slashes_make_no_difference(host: HostView, other: HostView, path: Seq<char>)
    requires
        other.url == host.url.push('/'),
    ensures
        upstream_url(other, path) == upstream_url(host, path),
{
    assert(other.url.drop_last() =~= host.url);
}

/// A parameter of a challenge, with its value in quotes.
pub open spec fn quoted_param(param: (Seq<char>, Seq<char>)) -> Seq<char> {
    param.0 + seq!['='] + (seq!['"'] + param.1 + seq!['"'])
}

/// Parameters of a challenge, with commas between them.
pub open spec fn quoted_params(params: Seq<(Seq<char>, Seq<char>)>) -> Seq<char>
    decreases params.len(),
{
    if params.len() == 0 {
        seq![]
    } else if params.len() == 1 {
        quoted_param(params[0])
    } else {
        quoted_param(params[0]) + seq![','] + quoted_params(params.drop_first())
    }
}

/// Whether a parameter can stand in a challenge with its value in quotes: its key has no
/// white space around it, no equals sign and no comma in it, its value no quote at either
/// end and no comma.
pub open spec fn can_be_quoted(param: (Seq<char>, Seq<char>)) -> bool {
    let (key, value) = param;
    &&& key.len() > 0 ==> !is_whitespace(key[0]) && !is_whitespace(key.last())
    &&& !key.contains('=')
    &&& !key.contains(',')
    &&& value.len() > 0 ==> value[0] != '"' && value.last() != '"'
    &&& !value.contains(',')
}

/// Text without white space around it stays as it is.
proof fn lemma_trim_is_same(s: Seq<char>)
    requires
        s.len() > 0 ==> !is_whitespace(s[0]) && !is_whitespace(s.last()),
    ensures
        trim(s) == s,
{
}

/// A parameter with its value in quotes is read as it was written.
proof fn lemma_quoted_param(param: (Seq<char>, Seq<char>))
    requires
        can_be_quoted(param),
    ensures
        challenge_param(quoted_param(param)) == Some(param),
        !quoted_param(param).contains(','),
{
    let (key, value) = param;
    let right = seq!['"'] + value + seq!['"'];
    let part = quoted_param(param);
    assert(part.last() == '"');
    assert(part[0] == (if key.len() > 0 {
        key[0]
    } else {
        '='
    }));
    lemma_trim_is_same(part);
    lemma_split_once_char_of(key, '=', right);
    lemma_trim_is_same(key);
    assert(right[0] == '"' && right.last() == '"');
    lemma_trim_is_same(right);
    assert(trim_char(right, '"') == value) by {
        let quote = only('"');
        let tail = value + seq!['"'];
        assert(right.drop_first() =~= tail);
        reveal_with_fuel(trim_start_of, 3);
        reveal_with_fuel(trim_end_of, 3);
        if value.len() == 0 {
            assert(tail.drop_first() =~= seq![]);
            assert(value =~= seq![]);
        } else {
            assert(tail[0] == value[0]);
            assert(trim_start_of(right, quote) == tail);
            assert(tail.drop_last() =~= value);
        }
    }
    assert forall|k: int| 0 <= k < part.len() implies part[k] != ',' by {
        if k < key.len() {
            assert(key.contains(key[k]));
        } else if key.len() + 1 < k < part.len() - 1 {
            assert(value.contains(value[k - key.len() - 2]));
        }
    }
}

/// A challenge to present a bearer token is read as it was written, whatever its
/// parameters.
pub proof fn law_challenge_is_read(params: Seq<(Seq<char>, Seq<char>)>)
    requires
        params.len() > 0,
        forall|i: int| 0 <= i < params.len() ==> can_be_quoted(#[trigger] params[i]),
    ensures
        bearer_challenge("Bearer "@ + quoted_params(params)) == Some(params),
{
    let text = quoted_params(params);
    assert(("Bearer "@ + text).skip("Bearer "@.len() as int) =~= text);
    assert("Bearer "@.is_prefix_of("Bearer "@ + text));
    lemma_quoted_params(params);
}

/// Parameters with their values in quotes are read as they were written.
proof fn lemma_quoted_params(params: Seq<(Seq<char>, Seq<char>)>)
    requires
        params.len() > 0,
        forall|i: int| 0 <= i < params.len() ==> can_be_quoted(#[trigger] params[i]),
    ensures
        challenge_params(pieces(quoted_params(params), ',')) == Some(params),
    decreases params.len(),
{
    let first = quoted_param(params[0]);
    assert(can_be_quoted(params[0]));
    lemma_quoted_param(params[0]);
    if params.len() == 1 {
        assert(pieces(first, ',') =~= seq![first]);
        assert(seq![first].drop_first() =~= seq![]);
        reveal_with_fuel(challenge_params, 2);
        assert(challenge_params(seq![first])->0 =~= params);
    } else {
        let rest = params.drop_first();
        assert forall|i: int| 0 <= i < rest.len() implies can_be_quoted(#[trigger] rest[i]) by {
            assert(rest[i] == params[i + 1]);
        }
        lemma_quoted_params(rest);
        let tail = quoted_params(rest);
        lemma_split_once_char_of(first, ',', tail);
        let all = pieces(quoted_params(params), ',');
        assert(all == seq![first] + pieces(tail, ','));
        assert(all.drop_first() =~= pieces(tail, ','));
        assert(challenge_params(all)->0 =~= params);
    }
}

/// A part of a challenge is read at its first equals sign: the key before it without white
/// space around it, the value after it without white space and then without quotes around
/// it. A part without an equals sign has neither.
pub proof fn law_part_of_a_challenge(part: Seq<char>)
    ensures
        match challenge_param(part) {
            Some((key, value)) => exists|left: Seq<char>, right: Seq<char>|
                {
                    &&& trim(part) == #[trigger] (left + seq!['='] + right)
                    &&& !left.contains('=')
                    &&& key == trim(left)
                    &&& value == trim_char(trim(right), '"')
                },
            None => !trim(part).contains('='),
        },
{
    lemma_split_once_char(trim(part), '=');
    if let Some((left, right)) = split_once_char(trim(part), '=') {
        assert(trim(part) =~= left + seq!['='] + right);
    }
}

/// A challenge is made of the parts between commas after `Bearer `, each of which adds its
/// key and value, in order; if one part has none the challenge cannot be read, nor can any
/// that does not begin with `Bearer `.
pub proof fn law_challenge_is_read_by_parts(first: Seq<char>, rest: Seq<char>, other: Seq<char>)
    requires
        !first.contains(','),
        !"Bearer "@.is_prefix_of(other),
    ensures
        bearer_challenge("Bearer "@ + first) == (match challenge_param(first) {
            Some(param) => Some(seq![param]),
            None => None,
        }),
        bearer_challenge("Bearer "@ + (first + seq![','] + rest)) == (match (
            challenge_param(first),
            bearer_challenge("Bearer "@ + rest),
        ) {
            (Some(param), Some(params)) => Some(seq![param] + params),
            _ => None,
        }),
        bearer_challenge(other) is None,
{
    reveal_with_fuel(challenge_params, 2);
    law_prefix_comes_off("Bearer "@, first, other);
    law_prefix_comes_off("Bearer "@, rest, other);
    law_prefix_comes_off("Bearer "@, first + seq![','] + rest, other);
    law_pieces(first, ',', rest);
    let single = pieces(first, ',');
    assert(single =~= seq![first]);
    assert(single.drop_first() =~= seq![]);
    if let Some(param) = challenge_param(first) {
        assert(seq![param] + Seq::<(Seq<char>, Seq<char>)>::empty() =~= seq![param]);
    }
    let all = pieces(first + seq![','] + rest, ',');
    assert(all =~= seq![first] + pieces(rest, ','));
    assert(all.drop_first() =~= pieces(rest, ','));
}

/// The first value of a key, and the parameters without that key.
proof fn lemma_params_by_key(params: Seq<(Seq<char>, Seq<char>)>, key: Seq<char>)
    ensures
        match first_value(params, key) {
            Some(value) => exists|i: int|
                {
                    &&& 0 <= i < params.len()
                    &&& #[trigger] params[i] == (key, value)
                    &&& forall|j: int| 0 <= j < i ==> (#[trigger] params[j]).0 != key
                },
            None => forall|j: int| 0 <= j < params.len() ==> (#[trigger] params[j]).0 != key,
        },
        other_params(params, key) == params.filter(|p: (Seq<char>, Seq<char>)| p.0 != key),
    decreases params.len(),
{
    let keep = |p: (Seq<char>, Seq<char>)| p.0 != key;
    reveal(Seq::filter);
    if params.len() > 0 {
        let rest = params.drop_first();
        lemma_params_by_key(rest, key);
        assert(params =~= seq![params[0]] + rest);
        Seq::filter_distributes_over_add(seq![params[0]], rest, keep);
        let one = seq![params[0]];
        assert(one.drop_last() =~= seq![]);
        reveal_with_fuel(Seq::filter, 2);
        assert(one.filter(keep) =~= if keep(params[0]) {
            one
        } else {
            seq![]
        });
        assert(other_params(params, key) =~= params.filter(keep));
        if params[0].0 == key {
            assert(params[0] == (key, params[0].1));
        } else {
            match first_value(rest, key) {
                Some(value) => {
                    let i = choose|i: int|
                        {
                            &&& 0 <= i < rest.len()
                            &&& #[trigger] rest[i] == (key, value)
                            &&& forall|j: int| 0 <= j < i ==> (#[trigger] rest[j]).0 != key
                        };
                    assert(params[i + 1] == (key, value));
                    assert forall|j: int| 0 <= j < i + 1 implies (#[trigger] params[j]).0
                        != key by {
                        if j > 0 {
                            assert(params[j] == rest[j - 1]);
                        }
                    }
                },
                None => {
                    assert forall|j: int| 0 <= j < params.len() implies (#[trigger] params[j]).0
                        != key by {
                        if j > 0 {
                            assert(params[j] == rest[j - 1]);
                        }
                    }
                },
            }
        }
    }
}

/// The request for a token that answers a challenge goes to the first realm that the
/// challenge names, with every parameter of the challenge but the realms, in their order. A
/// challenge that cannot be read, or names no realm, is not answered.
pub proof fn law_token_is_asked_of_the_realm(host: HostView, header: Seq<char>)
    ensures
        match (bearer_challenge(header), token_request_for(host, header)) {
            (Some(params), Some(request)) => {
                &&& exists|i: int|
                    {
                        &&& 0 <= i < params.len()
                        &&& #[trigger] params[i] == ("realm"@, request.realm)
                        &&& forall|j: int| 0 <= j < i ==> (#[trigger] params[j]).0 != "realm"@
                    }
                &&& request.query == params.filter(|p: (Seq<char>, Seq<char>)| p.0 != "realm"@)
            },
            (Some(params), None) => forall|j: int|
                0 <= j < params.len() ==> (#[trigger] params[j]).0 != "realm"@,
            (None, Some(_)) => false,
            (None, None) => true,
        },
{
    if let Some(params) = bearer_challenge(header) {
        let key = "realm"@;
        lemma_params_by_key(params, key);
        assert((|p: (Seq<char>, Seq<char>)| p.0 != key) =~= (|p: (Seq<char>, Seq<char>)|
            p.0 != "realm"@));
    }
}

/// A token is asked for exactly after an answer with the status 401, as its field
/// `www-authenticate` says.
pub proof fn law_token_is_asked_for_when_unauthorized(
    host: HostView,
    status: u16,
    headers: HeaderMap,
)
    ensures
        status != 401 ==> token_request_after(host, status, headers) is None,
        header_text(headers, "www-authenticate"@) is None ==> token_request_after(
            host,
            status,
            headers,
        ) is None,
        status == 401 ==> (header_text(headers, "www-authenticate"@) matches Some(challenge)
            ==> token_request_after(host, status, headers) == token_request_for(host, challenge)),
{
}

/// A request goes to the registry's URL, the slashes at its end left out, followed by the
/// path, with the method it is made with; it accepts image indexes and manifests of both
/// kinds, and blobs. What is to be stored is fetched with `GET`, anything else with the
/// client's own method, if that is one.
pub proof fn law_request_to_a_registry(
    host: HostView,
    base: Seq<char>,
    slashes: nat,
    method: Seq<char>,
    path: Seq<char>,
    bearer: Option<Seq<char>>,
)
    requires
        host.url == base + Seq::new(slashes, |i: int| '/'),
        base.len() == 0 || base.last() != '/',
    ensures
        ({
            let request = upstream_request_for(host, method, path, bearer);
            &&& request.method == method
            &&& request.url == base + path
            &&& request.accept
                == "application/vnd.oci.image.index.v1+json, application/vnd.oci.image.manifest.v1+json, application/vnd.docker.distribution.manifest.list.v2+json, application/vnd.docker.distribution.manifest.v2+json, application/octet-stream"@
        }),
        fetch_method_for(method, true) == Some("GET"@),
        is_method(method) ==> fetch_method_for(method, false) == Some(method),
        !is_method(method) ==> fetch_method_for(method, false) is None,
    decreases slashes,
{
    if slashes == 0 {
        assert(host.url =~= base);
    } else {
        let fewer = Seq::new((slashes - 1) as nat, |i: int| '/');
        let shorter = HostView { url: base + fewer, ..host };
        assert(host.url =~= shorter.url.push('/'));
        law_trailing_slashes_make_no_difference(shorter, host, path);
        law_request_to_a_registry(
            shorter,
            base,
            (slashes - 1) as nat,
            method,
            path,
            bearer,
        );
    }
}

/// What is seen of requests is all that they hold: of one for a token the realm, each key with
/// its value, in order, and the credentials; of one to a registry the method, the URL, the
/// types and how it is authorised.
pub proof fn law_requests_are_seen_whole(
    asked: TokenRequest,
    sent: UpstreamRequest,
    list: Seq<(&str, &str)>,
    i: int,
    j: int,
)
    requires
        0 <= i < asked.query@.len(),
        0 <= j < list.len(),
    ensures
        asked@.realm == asked.realm@,
        asked@.query.len() == asked.query@.len(),
        asked@.query[i] == (asked.query@[i].0@, asked.query@[i].1@),
        asked@.credentials == match asked.credentials {
            Some(c) => Some((c.username@, c.token@)),
            None => None,
        },
        pair_views(list).len() == list.len(),
        pair_views(list)[j] == (list[j].0@, list[j].1@),
        sent@.method == sent.method@,
        sent@.url == sent.url@,
        sent@.accept == sent.accept@,
        sent@.authorization == match sent.authorization {
            Authorization::Nothing => AuthorizationView::Nothing,
            Authorization::Basic(c) => AuthorizationView::Basic {
                username: c.username@,
                token: c.token@,
            },
            Authorization::Bearer(token) => AuthorizationView::Bearer { token: token@ },
        },
{
}

} // verus!
