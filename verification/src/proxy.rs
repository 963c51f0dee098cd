//! What the proxy does with a request: answer the health check, refuse it,
//! or forward it upstream, and which headers travel with it.
use vstd::prelude::*;
use vstd::string::StringExecFns;
use hyper::header::HeaderMap;
use hyper::http::uri::InvalidUri;
use hyper::Uri;
use crate::allowlist::{Allowlist, TargetView};
use crate::auth::{
    authorize, opt_slice_view, spec_auth_failure, spec_authorized, AuthError, HEADER_NAME,
};
use crate::headers::{
    entry_values, header_map_entries, header_name_str, header_name_text, header_pairs,
    header_str, header_try_insert, header_value_bytes, header_value_from_str, host_header_name,
    is_header_value_byte, is_plain_header_name, pair_views, spec_header_str, values_named,
    below_header_limit, lemma_values_named_nonempty,
};
use vstd::set_lib::lemma_len_subset;
use vstd::string::StringSliceAdditionalSpecFns;
use crate::routing::{extract_alias, opt_str_view, spec_extract_alias, HOST_HEADER_NAME};
use crate::text::str_eq;

verus! {

/// `http::Uri`, declared so that a parsed URI can be handed on; opaque.
#[verifier::external_type_specification]
#[verifier::external_body]
pub struct ExUri(Uri);

/// `http::uri::InvalidUri`, the error of parsing a URI; opaque.
#[verifier::external_type_specification]
#[verifier::external_body]
pub struct ExInvalidUri(InvalidUri);

/// What a URI holds, read back as text: its scheme (`Uri::scheme_str`), its
/// authority (`Uri::authority`) and its path with query
/// (`Uri::path_and_query`), each absent when the URI has none.
pub uninterp spec fn uri_parts(uri: Uri) -> (Option<Seq<char>>, Option<Seq<char>>, Option<Seq<char>>);

/// The parts of the URI that `text` parses to, or `None` when it does not
/// parse.
pub uninterp spec fn uri_parse_parts(text: Seq<char>) -> Option<
    (Option<Seq<char>>, Option<Seq<char>>, Option<Seq<char>>),
>;

/// `Uri::from_str`: parses `text` as a URI. It succeeds exactly when
/// `uri_parse_parts` gives parts for the text, and the URI it gives holds
/// those parts.
#[verifier::external_body]
fn parse_uri(text: &str) -> (r: Result<Uri, InvalidUri>)
    ensures
        r is Ok <==> uri_parse_parts(text@) is Some,
        r matches Ok(u) ==> Some(uri_parts(u)) == uri_parse_parts(text@),
{
    text.parse::<Uri>()
}

/// The path that the health check answers on.
pub const HEALTH_PATH: &'static str = "/healthz";

/// Headers that concern one connection only and are never passed on.
pub open spec fn hop_by_hop_names() -> Seq<Seq<char>> {
    seq![
        "connection"@,
        "keep-alive"@,
        "proxy-authenticate"@,
        "proxy-authorization"@,
        "te"@,
        "trailer"@,
        "transfer-encoding"@,
        "upgrade"@,
        "host"@,
    ]
}

/// Whether header `name` (lower case) is hop-by-hop.
pub fn is_hop_by_hop(name: &str) -> (r: bool)
    ensures
        r == hop_by_hop_names().contains(name@),
{
    let r = str_eq(name, "connection") || str_eq(name, "keep-alive") || str_eq(
        name,
        "proxy-authenticate",
    ) || str_eq(name, "proxy-authorization") || str_eq(name, "te") || str_eq(name, "trailer")
        || str_eq(name, "transfer-encoding") || str_eq(name, "upgrade") || str_eq(name, "host");
    proof {
        let names = hop_by_hop_names();
        if r {
            assert(names[0] == "connection"@);
            assert(names[1] == "keep-alive"@);
            assert(names[2] == "proxy-authenticate"@);
            assert(names[3] == "proxy-authorization"@);
            assert(names[4] == "te"@);
            assert(names[5] == "trailer"@);
            assert(names[6] == "transfer-encoding"@);
            assert(names[7] == "upgrade"@);
            assert(names[8] == "host"@);
        }
    }
    r
}

/// A request header is passed upstream unless it is hop-by-hop or one of the
/// proxy's own headers (the token and the target name).
pub open spec fn spec_forwards_request_header(name: Seq<char>) -> bool {
    &&& !hop_by_hop_names().contains(name)
    &&& name != HEADER_NAME@
    &&& name != HOST_HEADER_NAME@
}

/// Whether request header `name` (lower case) is passed upstream.
pub fn forwards_request_header(name: &str) -> (r: bool)
    ensures
        r == spec_forwards_request_header(name@),
{
    !is_hop_by_hop(name) && !str_eq(name, HEADER_NAME) && !str_eq(name, HOST_HEADER_NAME)
}

/// The upstream URL: HTTPS to `host`, then `/` and the forwarded path when
/// there is one, then `?` and the query when there is one.
pub open spec fn spec_upstream_url(host: Seq<char>, rest: Seq<char>, query: Option<Seq<char>>) -> Seq<
    char,
> {
    let with_path = if rest.len() > 0 {
        "https://"@ + host + "/"@ + rest
    } else {
        "https://"@ + host
    };
    match query {
        Some(q) => with_path + "?"@ + q,
        None => with_path,
    }
}

/// Builds the upstream URL.
pub fn upstream_url(host: &str, rest: &str, query: Option<&str>) -> (r: String)
    ensures
        r@ == spec_upstream_url(host@, rest@, opt_str_view(query)),
{
    let mut url = String::from_str("https://");
    url.append(host);
    if !rest.is_empty() {
        url.append("/");
        url.append(rest);
    }
    if let Some(q) = query {
        url.append("?");
        url.append(q);
    }
    url
}

/// Why a request was answered without a successful upstream response.
#[derive(Debug)]
pub enum Rejection {
    /// The request names no target.
    NoTarget,
    /// The named alias is not in the allowlist.
    UnknownTarget { alias: String },
    /// The target asks for a token and the request is not authorized.
    Unauthorized { alias: String, error: AuthError },
    /// The upstream URL does not parse.
    InvalidUpstreamUri,
    /// The upstream request could not be built.
    RequestBuildFailed,
    /// The upstream request failed.
    UpstreamFailed,
    /// The response to the client could not be built.
    ResponseBuildFailed,
}

/// The status and body of the health check answer.
pub open spec fn health_reply() -> (u16, Seq<char>) {
    (200, "ok\n"@)
}

impl Rejection {
    /// The status and body a rejection is answered with.
    pub open spec fn reply(&self) -> (u16, Seq<char>) {
        match self {
            Rejection::NoTarget => (
                404,
                "Specify a proxy target, e.g. /telegram/<path> or X-Bouncer-Host: telegram\n"@,
            ),
            Rejection::UnknownTarget { .. } => (403, "Unknown proxy target\n"@),
            Rejection::Unauthorized { .. } => (401, "Unauthorized\n"@),
            Rejection::InvalidUpstreamUri => (502, "Invalid upstream URI\n"@),
            Rejection::RequestBuildFailed => (500, "Failed to build upstream request\n"@),
            Rejection::UpstreamFailed => (502, "Upstream request failed\n"@),
            Rejection::ResponseBuildFailed => (500, "Response build failed\n"@),
        }
    }

    /// The HTTP status a rejection is answered with.
    pub fn status(&self) -> (r: u16)
        ensures
            r == self.reply().0,
    {
        match self {
            Rejection::NoTarget => 404,
            Rejection::UnknownTarget { .. } => 403,
            Rejection::Unauthorized { .. } => 401,
            Rejection::InvalidUpstreamUri => 502,
            Rejection::RequestBuildFailed => 500,
            Rejection::UpstreamFailed => 502,
            Rejection::ResponseBuildFailed => 500,
        }
    }

    /// The plain-text body a rejection is answered with.
    pub fn body(&self) -> (r: &'static str)
        ensures
            r@ == self.reply().1,
    {
        match self {
            Rejection::NoTarget => "Specify a proxy target, e.g. /telegram/<path> or X-Bouncer-Host: telegram\n",
            Rejection::UnknownTarget { .. } => "Unknown proxy target\n",
            Rejection::Unauthorized { .. } => "Unauthorized\n",
            Rejection::InvalidUpstreamUri => "Invalid upstream URI\n",
            Rejection::RequestBuildFailed => "Failed to build upstream request\n",
            Rejection::UpstreamFailed => "Upstream request failed\n",
            Rejection::ResponseBuildFailed => "Response build failed\n",
        }
    }
}

/// The status of the health check answer.
pub fn health_status() -> (r: u16)
    ensures
        r == health_reply().0,
{
    200
}

/// The body of the health check answer.
pub fn health_body() -> (r: &'static str)
    ensures
        r@ == health_reply().1,
{
    "ok\n"
}

/// A request to pass upstream: its URI and the host it goes to.
#[derive(Debug)]
pub struct Forward {
    pub alias: String,
    pub host: String,
    pub url: String,
    pub uri: Uri,
}

/// What the proxy does with a request.
#[derive(Debug)]
pub enum Plan {
    /// Answer the health check.
    Health,
    /// Answer with a rejection.
    Reject(Rejection),
    /// Pass the request upstream.
    Forward(Forward),
}

/// The decision that a plan records, as plain values.
pub enum Decision {
    Health,
    NoTarget,
    UnknownTarget(Seq<char>),
    Unauthorized(Seq<char>),
    InvalidUpstreamUri,
    Forward {
        alias: Seq<char>,
        host: Seq<char>,
        url: Seq<char>,
        uri: (Option<Seq<char>>, Option<Seq<char>>, Option<Seq<char>>),
    },
    RequestBuildFailed,
    UpstreamFailed,
    ResponseBuildFailed,
}

impl Plan {
    /// The decision this plan records.
    pub open spec fn decision(&self) -> Decision {
        match self {
            Plan::Health => Decision::Health,
            Plan::Reject(Rejection::NoTarget) => Decision::NoTarget,
            Plan::Reject(Rejection::UnknownTarget { alias }) => Decision::UnknownTarget(alias@),
            Plan::Reject(Rejection::Unauthorized { alias, .. }) => Decision::Unauthorized(alias@),
            Plan::Reject(Rejection::InvalidUpstreamUri) => Decision::InvalidUpstreamUri,
            Plan::Forward(f) => Decision::Forward {
                alias: f.alias@,
                host: f.host@,
                url: f.url@,
                uri: uri_parts(f.uri),
            },
            Plan::Reject(Rejection::RequestBuildFailed) => Decision::RequestBuildFailed,
            Plan::Reject(Rejection::UpstreamFailed) => Decision::UpstreamFailed,
            Plan::Reject(Rejection::ResponseBuildFailed) => Decision::ResponseBuildFailed,
        }
    }
}

/// What the proxy decides for a request with this path, query and headers,
/// under this secret and allowlist.
pub open spec fn spec_decide(
    path: Seq<char>,
    query: Option<Seq<char>>,
    headers: HeaderMap,
    secret: Option<Seq<u8>>,
    allowlist: Map<Seq<char>, TargetView>,
) -> Decision {
    if path == HEALTH_PATH@ {
        Decision::Health
    } else {
        match spec_extract_alias(path, spec_header_str(headers, HOST_HEADER_NAME@)) {
            None => Decision::NoTarget,
            Some((alias, rest)) => if !allowlist.contains_key(alias) {
                Decision::UnknownTarget(alias)
            } else if allowlist[alias].auth && !spec_authorized(secret, headers) {
                Decision::Unauthorized(alias)
            } else {
                let url = spec_upstream_url(allowlist[alias].host, rest, query);
                match uri_parse_parts(url) {
                    Some(uri) => Decision::Forward { alias, host: allowlist[alias].host, url, uri },
                    None => Decision::InvalidUpstreamUri,
                }
            },
        }
    }
}

proof fn lemma_host_header_name_is_plain()
    ensures
        is_plain_header_name(HOST_HEADER_NAME@),
{
    reveal_strlit("x-bouncer-host");
}

/// Decides what to do with a request: its path, query string and headers,
/// the configured secret and the allowlist in force.
pub fn plan_request(
    path: &str,
    query: Option<&str>,
    headers: &HeaderMap,
    secret: Option<&[u8]>,
    allowlist: &Allowlist,
) -> (p: Plan)
    ensures
        p.decision() == spec_decide(
            path@,
            opt_str_view(query),
            *headers,
            opt_slice_view(secret),
            allowlist@,
        ),
        p matches Plan::Forward(f) ==> Some(uri_parts(f.uri)) == uri_parse_parts(f.url@),
        p matches Plan::Reject(Rejection::Unauthorized { error, .. }) ==> spec_auth_failure(
            opt_slice_view(secret),
            *headers,
            error,
        ),
{
    if str_eq(path, HEALTH_PATH) {
        return Plan::Health;
    }
    proof {
        lemma_host_header_name_is_plain();
    }
    let host_header = header_str(headers, HOST_HEADER_NAME);
    let (alias, rest) = match extract_alias(path, host_header) {
        Some(pair) => pair,
        None => return Plan::Reject(Rejection::NoTarget),
    };
    let target = match allowlist.get(alias) {
        Some(t) => t,
        None => return Plan::Reject(Rejection::UnknownTarget { alias: alias.to_owned() }),
    };
    if target.auth {
        if let Err(error) = authorize(secret, headers) {
            return Plan::Reject(Rejection::Unauthorized { alias: alias.to_owned(), error });
        }
    }
    let url = upstream_url(target.host.as_str(), rest, query);
    match parse_uri(url.as_str()) {
        Ok(uri) => Plan::Forward(
            Forward { alias: alias.to_owned(), host: target.host.clone(), url, uri },
        ),
        Err(_) => Plan::Reject(Rejection::InvalidUpstreamUri),
    }
}

/// The health check is answered before any routing: whatever the headers,
/// secret and allowlist.
pub proof fn law_health_check_always_answered(
    query: Option<Seq<char>>,
    headers: HeaderMap,
    secret: Option<Seq<u8>>,
    allowlist: Map<Seq<char>, TargetView>,
)
    ensures
        spec_decide(HEALTH_PATH@, query, headers, secret, allowlist) == Decision::Health,
{
}

/// An alias that the allowlist does not hold is refused.
pub proof fn law_unlisted_alias_refused(
    path: Seq<char>,
    query: Option<Seq<char>>,
    headers: HeaderMap,
    secret: Option<Seq<u8>>,
    allowlist: Map<Seq<char>, TargetView>,
    alias: Seq<char>,
    rest: Seq<char>,
)
    requires
        path != HEALTH_PATH@,
        spec_extract_alias(path, spec_header_str(headers, HOST_HEADER_NAME@)) == Some((alias, rest)),
        !allowlist.contains_key(alias),
    ensures
        spec_decide(path, query, headers, secret, allowlist) == Decision::UnknownTarget(alias),
{
}

/// Nothing is forwarded but to an allowlisted target's host, and to a target
/// that asks for a token only when the request is authorized; the request
/// goes to the URI that the HTTPS URL for that host parses to.
pub proof fn law_forward_only_when_allowed(
    path: Seq<char>,
    query: Option<Seq<char>>,
    headers: HeaderMap,
    secret: Option<Seq<u8>>,
    allowlist: Map<Seq<char>, TargetView>,
)
    ensures
        spec_decide(path, query, headers, secret, allowlist) matches Decision::Forward {
            alias,
            host,
            url,
            uri,
        } ==> {
            &&& allowlist.contains_key(alias)
            &&& host == allowlist[alias].host
            &&& (allowlist[alias].auth ==> spec_authorized(secret, headers))
            &&& url.take(8 + host.len() as int) == "https://"@ + host
            &&& uri_parse_parts(url) == Some(uri)
        },
{
    reveal_strlit("https://");
    if let Decision::Forward { alias, host, url, .. } = spec_decide(
        path,
        query,
        headers,
        secret,
        allowlist,
    ) {
        let (a, rest) = spec_extract_alias(path, spec_header_str(headers, HOST_HEADER_NAME@))->0;
        let prefix = "https://"@ + host;
        let with_path = if rest.len() > 0 {
            "https://"@ + host + "/"@ + rest
        } else {
            "https://"@ + host
        };
        assert(with_path.take(8 + host.len() as int) =~= prefix);
        match query {
            Some(q) => assert((with_path + "?"@ + q).take(8 + host.len() as int) =~= prefix),
            None => {},
        }
    }
}

/// A target that asks for a token is refused when no secret is configured:
/// the proxy fails closed.
pub proof fn law_protected_target_fails_closed(
    path: Seq<char>,
    query: Option<Seq<char>>,
    headers: HeaderMap,
    allowlist: Map<Seq<char>, TargetView>,
    alias: Seq<char>,
    rest: Seq<char>,
)
    requires
        path != HEALTH_PATH@,
        spec_extract_alias(path, spec_header_str(headers, HOST_HEADER_NAME@)) == Some((alias, rest)),
        allowlist.contains_key(alias),
        allowlist[alias].auth,
    ensures
        spec_decide(path, query, headers, None, allowlist) == Decision::Unauthorized(alias),
{
}

/// For a target that asks for no token, the secret plays no part.
pub proof fn law_open_target_ignores_secret(
    path: Seq<char>,
    query: Option<Seq<char>>,
    headers: HeaderMap,
    secret1: Option<Seq<u8>>,
    secret2: Option<Seq<u8>>,
    allowlist: Map<Seq<char>, TargetView>,
    alias: Seq<char>,
    rest: Seq<char>,
)
    requires
        spec_extract_alias(path, spec_header_str(headers, HOST_HEADER_NAME@)) == Some((alias, rest)),
        allowlist.contains_key(alias),
        !allowlist[alias].auth,
    ensures
        spec_decide(path, query, headers, secret1, allowlist) == spec_decide(
            path,
            query,
            headers,
            secret2,
            allowlist,
        ),
{
}

/// The token, the target-naming header and every hop-by-hop header stay with
/// the proxy: none is passed upstream.
pub proof fn law_credentials_not_forwarded(name: Seq<char>)
    requires
        name == HEADER_NAME@ || name == HOST_HEADER_NAME@ || hop_by_hop_names().contains(name),
    ensures
        !spec_forwards_request_header(name),
{
}

/// Each refusal is answered with its status: no target 404, unknown target
/// 403, unauthorized 401, a bad upstream URI 502.
pub proof fn law_refusal_statuses(p: Plan)
    ensures
        p.decision() is NoTarget ==> (p matches Plan::Reject(r) && r.reply().0 == 404),
        p.decision() is UnknownTarget ==> (p matches Plan::Reject(r) && r.reply().0 == 403),
        p.decision() is Unauthorized ==> (p matches Plan::Reject(r) && r.reply().0 == 401),
        p.decision() is InvalidUpstreamUri ==> (p matches Plan::Reject(r) && r.reply().0 == 502),
        p.decision() is Health ==> p is Health && health_reply().0 == 200,
{
}

/// Whether a header travels on: a request header unless it is hop-by-hop or
/// one of the proxy's own; a response header unless it is hop-by-hop.
pub open spec fn keeps_header(request_side: bool, name: Seq<char>) -> bool {
    if request_side {
        spec_forwards_request_header(name)
    } else {
        !hop_by_hop_names().contains(name)
    }
}

/// `out` after each kept (name, value) pair of `pairs` was inserted in turn:
/// a kept name that occurs holds just its last value; all else is as before.
pub open spec fn copied_pairs(
    out: Map<Seq<char>, Seq<Seq<u8>>>,
    pairs: Seq<(Seq<char>, Seq<u8>)>,
    request_side: bool,
) -> Map<Seq<char>, Seq<Seq<u8>>> {
    Map::new(
        |n: Seq<char>|
            out.contains_key(n) || (keeps_header(request_side, n) && values_named(pairs, n).len()
                > 0),
        |n: Seq<char>|
            if keeps_header(request_side, n) && values_named(pairs, n).len() > 0 {
                seq![values_named(pairs, n).last()]
            } else {
                out[n]
            },
    )
}

/// `out` after the headers of `incoming` were copied into it: each kept name
/// that `incoming` holds now holds just its last value there; all else is as
/// before.
pub open spec fn copied_headers(
    out: Map<Seq<char>, Seq<Seq<u8>>>,
    incoming: Map<Seq<char>, Seq<Seq<u8>>>,
    request_side: bool,
) -> Map<Seq<char>, Seq<Seq<u8>>> {
    Map::new(
        |n: Seq<char>|
            out.contains_key(n) || (keeps_header(request_side, n) && entry_values(incoming, n).len()
                > 0),
        |n: Seq<char>|
            if keeps_header(request_side, n) && entry_values(incoming, n).len() > 0 {
                seq![entry_values(incoming, n).last()]
            } else {
                out[n]
            },
    )
}

/// Why headers could not be copied.
#[derive(Debug, PartialEq, Eq)]
pub enum HeaderCopyError {
    /// The upstream host is not a valid header value.
    InvalidHost,
    /// The header map is full.
    TooManyHeaders,
}

fn copy_headers(incoming: &HeaderMap, out: &mut HeaderMap, request_side: bool) -> (r: Result<
    (),
    HeaderCopyError,
>)
    ensures
        r is Ok ==> header_map_entries(*final(out)) == copied_headers(
            header_map_entries(*old(out)),
            header_map_entries(*incoming),
            request_side,
        ),
        r matches Err(e) ==> e == HeaderCopyError::TooManyHeaders,
        below_header_limit(
            header_map_entries(*old(out)).dom().union(header_map_entries(*incoming).dom()),
        ) ==> r is Ok,
{
    let pairs = header_pairs(incoming);
    let ghost names = header_map_entries(*out).dom().union(header_map_entries(*incoming).dom());
    let ghost start = header_map_entries(*out);
    let ghost views = pair_views(pairs@);
    let mut i: usize = 0;
    assert(copied_pairs(start, views.take(0), request_side) =~= start);
    while i < pairs.len()
        invariant
            i <= pairs@.len(),
            views == pair_views(pairs@),
            header_map_entries(*out) == copied_pairs(start, views.take(i as int), request_side),
            names == start.dom().union(header_map_entries(*incoming).dom()),
            start == header_map_entries(*old(out)),
            forall|n: Seq<char>| #[trigger]
                values_named(views, n) == entry_values(header_map_entries(*incoming), n),
            header_map_entries(*out).dom().subset_of(names),
        decreases pairs@.len() - i,
    {
        let (name, value) = pairs[i];
        let text = header_name_str(name);
        let keep = if request_side {
            forwards_request_header(text)
        } else {
            !is_hop_by_hop(text)
        };
        let ghost before = header_map_entries(*out);
        let ghost n0 = header_name_text(*name);
        let ghost v0 = header_value_bytes(*value);
        proof {
            let prev = views.take(i as int);
            let next = views.take(i + 1);
            assert(next.drop_last() =~= prev);
            assert(next.last() == (n0, v0));
            assert forall|n: Seq<char>| #[trigger]
                values_named(next, n) == values_named(prev, n) + if n == n0 {
                    seq![v0]
                } else {
                    Seq::<Seq<u8>>::empty()
                } by {}
        }
        proof {
            if below_header_limit(names) {
                lemma_len_subset(header_map_entries(*out).dom(), names);
            }
        }
        if keep {
            match header_try_insert(out, name, value) {
                Ok(()) => {},
                Err(_) => return Err(HeaderCopyError::TooManyHeaders),
            }
        }
        proof {
            let prev = views.take(i as int);
            let next = views.take(i + 1);
            let after = header_map_entries(*out);
            assert forall|n: Seq<char>| #[trigger]
                after.contains_key(n) == copied_pairs(start, next, request_side).contains_key(n) by {
                assert(values_named(next, n) == values_named(prev, n) + if n == n0 {
                    seq![v0]
                } else {
                    Seq::<Seq<u8>>::empty()
                });
            }
            assert forall|n: Seq<char>| #[trigger]
                after.contains_key(n) implies after[n] == copied_pairs(start, next, request_side)[n] by {
                assert(values_named(next, n) == values_named(prev, n) + if n == n0 {
                    seq![v0]
                } else {
                    Seq::<Seq<u8>>::empty()
                });
            }
            assert(after =~= copied_pairs(start, next, request_side));
            assert(views[i as int] == (n0, v0));
            lemma_values_named_nonempty(views, n0);
            assert forall|n: Seq<char>| after.contains_key(n) implies #[trigger] names.contains(n) by {
                if !before.contains_key(n) {
                    assert(n == n0);
                    assert(values_named(views, n0).len() > 0);
                }
            }
        }
        i = i + 1;
    }
    proof {
        assert(views.take(pairs@.len() as int) =~= views);
        let incoming_entries = header_map_entries(*incoming);
        assert forall|n: Seq<char>| #[trigger]
            values_named(views, n) == entry_values(incoming_entries, n) by {}
        assert(copied_pairs(start, views, request_side) =~= copied_headers(
            start,
            incoming_entries,
            request_side,
        ));
    }
    Ok(())
}

/// Copies the request headers that travel upstream from `incoming` into
/// `out`, then sets `host` to the upstream host. When the host is not a valid
/// header value, `out` is left as it was.
pub fn forward_request_headers(incoming: &HeaderMap, host: &str, out: &mut HeaderMap) -> (r: Result<
    (),
    HeaderCopyError,
>)
    ensures
        r is Ok ==> header_map_entries(*final(out)) == copied_headers(
            header_map_entries(*old(out)),
            header_map_entries(*incoming),
            true,
        ).insert("host"@, seq![host.spec_bytes()]),
        (r == Err::<(), HeaderCopyError>(HeaderCopyError::InvalidHost)) <==> !(forall|i: int|
            0 <= i < host.spec_bytes().len() ==> is_header_value_byte(
                #[trigger] host.spec_bytes()[i],
            )),
        r == Err::<(), HeaderCopyError>(HeaderCopyError::InvalidHost) ==> *final(out) == *old(out),
        (forall|i: int|
            0 <= i < host.spec_bytes().len() ==> is_header_value_byte(
                #[trigger] host.spec_bytes()[i],
            )) && below_header_limit(
            header_map_entries(*old(out)).dom().union(header_map_entries(*incoming).dom()),
        ) ==> r is Ok,
{
    let value = match header_value_from_str(host) {
        Ok(v) => v,
        Err(_) => return Err(HeaderCopyError::InvalidHost),
    };
    let ghost names = header_map_entries(*out).dom().union(header_map_entries(*incoming).dom());
    let ghost start = header_map_entries(*out);
    copy_headers(incoming, out, true)?;
    proof {
        let now = header_map_entries(*out);
        let incoming_entries = header_map_entries(*incoming);
        assert forall|n: Seq<char>| now.contains_key(n) implies #[trigger] names.contains(n) by {
            if !start.contains_key(n) {
                assert(entry_values(incoming_entries, n).len() > 0);
            }
        }
        if below_header_limit(names) {
            lemma_len_subset(now.dom(), names);
        }
    }
    let name = host_header_name();
    match header_try_insert(out, &name, &value) {
        Ok(()) => Ok(()),
        Err(_) => Err(HeaderCopyError::TooManyHeaders),
    }
}

/// Copies the response headers that travel back to the client (all but the
/// hop-by-hop ones) from `incoming` into `out`.
pub fn forward_response_headers(incoming: &HeaderMap, out: &mut HeaderMap) -> (r: Result<
    (),
    HeaderCopyError,
>)
    ensures
        r is Ok ==> header_map_entries(*final(out)) == copied_headers(
            header_map_entries(*old(out)),
            header_map_entries(*incoming),
            false,
        ),
        r matches Err(e) ==> e == HeaderCopyError::TooManyHeaders,
        below_header_limit(
            header_map_entries(*old(out)).dom().union(header_map_entries(*incoming).dom()),
        ) ==> r is Ok,
{
    copy_headers(incoming, out, false)
}

/// The upstream URL of a forwarded request is "https://", the target's
/// host, then "/" and the forwarded path when there is one, then "?" and the
/// request's own query whenever it has one, whether the alias came from the
/// path or from the target-naming header.
pub proof fn law_forward_url_keeps_path_and_query(
    path: Seq<char>,
    query: Option<Seq<char>>,
    headers: HeaderMap,
    secret: Option<Seq<u8>>,
    allowlist: Map<Seq<char>, TargetView>,
)
    ensures
        spec_decide(path, query, headers, secret, allowlist) matches Decision::Forward {
            alias,
            host,
            url,
            ..
        } ==> exists|rest: Seq<char>|
            {
                &&& spec_extract_alias(path, spec_header_str(headers, HOST_HEADER_NAME@)) == Some(
                    (alias, rest),
                )
                &&& url == ("https://"@ + host + if rest.len() > 0 {
                    "/"@ + rest
                } else {
                    Seq::<char>::empty()
                }) + match query {
                    Some(q) => "?"@ + q,
                    None => Seq::<char>::empty(),
                }
            },
        query matches Some(q) ==> (spec_decide(path, query, headers, secret, allowlist) matches Decision::Forward {
            url,
            ..
        } ==> url.len() > q.len() && url.skip(url.len() - q.len() - 1) == "?"@ + q),
{
    reveal_strlit("?");
    if let Decision::Forward { alias, host, url, .. } = spec_decide(
        path,
        query,
        headers,
        secret,
        allowlist,
    ) {
        let pair = spec_extract_alias(path, spec_header_str(headers, HOST_HEADER_NAME@))->0;
        let rest = pair.1;
        let base = "https://"@ + host + if rest.len() > 0 {
            "/"@ + rest
        } else {
            Seq::<char>::empty()
        };
        if rest.len() > 0 {
            assert("https://"@ + host + "/"@ + rest =~= base);
        } else {
            assert("https://"@ + host =~= base);
        }
        match query {
            Some(q) => {
                assert(url =~= base + ("?"@ + q));
                assert(url.skip(url.len() - q.len() - 1) =~= "?"@ + q);
            },
            None => {
                assert(url =~= base + Seq::<char>::empty());
            },
        }
    }
}

/// The request headers that travel upstream are exactly those that are not
/// hop-by-hop and not the proxy's own (`x-bouncer-token`, `x-bouncer-host`):
/// each of them that the request carries arrives with its last value; any
/// other name is left as it was.
pub proof fn law_request_headers_forwarded(
    out: Map<Seq<char>, Seq<Seq<u8>>>,
    incoming: Map<Seq<char>, Seq<Seq<u8>>>,
    name: Seq<char>,
)
    requires
        incoming.contains_key(name),
        incoming[name].len() > 0,
    ensures
        ({
            let dropped = seq![
                "connection"@,
                "keep-alive"@,
                "proxy-authenticate"@,
                "proxy-authorization"@,
                "te"@,
                "trailer"@,
                "transfer-encoding"@,
                "upgrade"@,
                "host"@,
                "x-bouncer-token"@,
                "x-bouncer-host"@,
            ];
            let result = copied_headers(out, incoming, true);
            &&& !dropped.contains(name) ==> result.contains_key(name) && result[name] == seq![
                incoming[name].last(),
            ]
            &&& dropped.contains(name) ==> (result.contains_key(name) == out.contains_key(name)
                && (out.contains_key(name) ==> result[name] == out[name]))
        }),
{
    reveal_strlit("x-bouncer-token");
    reveal_strlit("x-bouncer-host");
    lemma_dropped_names(name, true);
}

/// The response headers that travel back are all but the hop-by-hop ones:
/// each of them that the response carries arrives with its last value; a
/// hop-by-hop name is left as it was.
pub proof fn law_response_headers_forwarded(
    out: Map<Seq<char>, Seq<Seq<u8>>>,
    incoming: Map<Seq<char>, Seq<Seq<u8>>>,
    name: Seq<char>,
)
    requires
        incoming.contains_key(name),
        incoming[name].len() > 0,
    ensures
        ({
            let dropped = seq![
                "connection"@,
                "keep-alive"@,
                "proxy-authenticate"@,
                "proxy-authorization"@,
                "te"@,
                "trailer"@,
                "transfer-encoding"@,
                "upgrade"@,
                "host"@,
            ];
            let result = copied_headers(out, incoming, false);
            &&& !dropped.contains(name) ==> result.contains_key(name) && result[name] == seq![
                incoming[name].last(),
            ]
            &&& dropped.contains(name) ==> (result.contains_key(name) == out.contains_key(name)
                && (out.contains_key(name) ==> result[name] == out[name]))
        }),
{
    lemma_dropped_names(name, false);
}

proof fn lemma_dropped_names(name: Seq<char>, request_side: bool)
    ensures
        keeps_header(request_side, name) <==> !(if request_side {
            seq![
                "connection"@,
                "keep-alive"@,
                "proxy-authenticate"@,
                "proxy-authorization"@,
                "te"@,
                "trailer"@,
                "transfer-encoding"@,
                "upgrade"@,
                "host"@,
                "x-bouncer-token"@,
                "x-bouncer-host"@,
            ]
        } else {
            seq![
                "connection"@,
                "keep-alive"@,
                "proxy-authenticate"@,
                "proxy-authorization"@,
                "te"@,
                "trailer"@,
                "transfer-encoding"@,
                "upgrade"@,
                "host"@,
            ]
        }).contains(name),
{
    let hop = hop_by_hop_names();
    let own = seq!["x-bouncer-token"@, "x-bouncer-host"@];
    let all = hop + own;
    assert(seq![
        "connection"@,
        "keep-alive"@,
        "proxy-authenticate"@,
        "proxy-authorization"@,
        "te"@,
        "trailer"@,
        "transfer-encoding"@,
        "upgrade"@,
        "host"@,
    ] =~= hop);
    assert(seq![
        "connection"@,
        "keep-alive"@,
        "proxy-authenticate"@,
        "proxy-authorization"@,
        "te"@,
        "trailer"@,
        "transfer-encoding"@,
        "upgrade"@,
        "host"@,
        "x-bouncer-token"@,
        "x-bouncer-host"@,
    ] =~= all);
    if request_side {
        if all.contains(name) {
            let i = choose|i: int| 0 <= i < all.len() && all[i] == name;
            if i < 9 {
                assert(hop[i] == name);
            }
        }
        if hop.contains(name) {
            let i = choose|i: int| 0 <= i < hop.len() && hop[i] == name;
            assert(all[i] == name);
        }
        if name == HEADER_NAME@ {
            assert(all[9] == name);
        }
        if name == HOST_HEADER_NAME@ {
            assert(all[10] == name);
        }
    }
}

} // verus!
