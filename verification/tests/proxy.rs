use bouncer::allowlist::{Allowlist, Target};
use bouncer::auth::HEADER_NAME;
use bouncer::proxy::{
    forward_request_headers, forward_response_headers, forwards_request_header, health_body,
    health_status, is_hop_by_hop, plan_request, upstream_url, HeaderCopyError, Plan, Rejection,
};
use bouncer::routing::HOST_HEADER_NAME;
use hyper::header::HeaderValue;
use hyper::HeaderMap;
use jsonwebtoken::{encode, Algorithm, EncodingKey, Header};

fn allowlist() -> Allowlist {
    let mut a = Allowlist::new();
    a.insert(
        "kucoin".to_string(),
        Target {
            host: "api.kucoin.com".to_string(),
            auth: false,
        },
    );
    a.insert(
        "telegram".to_string(),
        Target {
            host: "api.telegram.org".to_string(),
            auth: true,
        },
    );
    a.insert(
        "broken".to_string(),
        Target {
            host: "bad host".to_string(),
            auth: false,
        },
    );
    a
}

fn token(secret: &[u8]) -> String {
    encode(
        &Header::new(Algorithm::HS256),
        &serde_json::Value::Object(serde_json::Map::new()),
        &EncodingKey::from_secret(secret),
    )
    .unwrap()
}

#[test]
fn health_check_is_answered_first() {
    let headers = HeaderMap::new();
    let plan = plan_request("/healthz", None, &headers, None, &Allowlist::new());
    assert!(matches!(plan, Plan::Health));
    assert_eq!(health_status(), 200);
    assert_eq!(health_body(), "ok\n");
}

#[test]
fn request_without_target_gets_404() {
    let headers = HeaderMap::new();
    match plan_request("/", None, &headers, None, &allowlist()) {
        Plan::Reject(r) => {
            assert!(matches!(r, Rejection::NoTarget));
            assert_eq!(r.status(), 404);
            assert_eq!(
                r.body(),
                "Specify a proxy target, e.g. /telegram/<path> or X-Bouncer-Host: telegram\n"
            );
        }
        other => panic!("unexpected: {:?}", other),
    }
}

#[test]
fn unlisted_alias_gets_403() {
    let headers = HeaderMap::new();
    match plan_request("/binance/api", None, &headers, None, &allowlist()) {
        Plan::Reject(r) => {
            assert_eq!(r.status(), 403);
            assert_eq!(r.body(), "Unknown proxy target\n");
            match r {
                Rejection::UnknownTarget { alias } => assert_eq!(alias, "binance"),
                other => panic!("unexpected: {:?}", other),
            }
        }
        other => panic!("unexpected: {:?}", other),
    }
}

#[test]
fn open_target_is_forwarded_with_path_and_query() {
    let headers = HeaderMap::new();
    match plan_request("/kucoin/api/v1/timestamp", Some("a=1&b=2"), &headers, None, &allowlist()) {
        Plan::Forward(f) => {
            assert_eq!(f.alias, "kucoin");
            assert_eq!(f.host, "api.kucoin.com");
            assert_eq!(f.url, "https://api.kucoin.com/api/v1/timestamp?a=1&b=2");
            assert_eq!(f.uri.host(), Some("api.kucoin.com"));
            assert_eq!(f.uri.path(), "/api/v1/timestamp");
        }
        other => panic!("unexpected: {:?}", other),
    }
}

#[test]
fn host_header_selects_target() {
    let mut headers = HeaderMap::new();
    headers.insert(HOST_HEADER_NAME, HeaderValue::from_static(" kucoin "));
    match plan_request("/api/v1", None, &headers, None, &allowlist()) {
        Plan::Forward(f) => assert_eq!(f.url, "https://api.kucoin.com/api/v1"),
        other => panic!("unexpected: {:?}", other),
    }
}

#[test]
fn protected_target_without_secret_gets_401() {
    let mut headers = HeaderMap::new();
    headers.insert(HEADER_NAME, HeaderValue::from_str(&token(b"s")).unwrap());
    match plan_request("/telegram/getMe", None, &headers, None, &allowlist()) {
        Plan::Reject(r) => {
            assert_eq!(r.status(), 401);
            assert_eq!(r.body(), "Unauthorized\n");
        }
        other => panic!("unexpected: {:?}", other),
    }
}

#[test]
fn protected_target_with_bad_token_gets_401() {
    let mut headers = HeaderMap::new();
    headers.insert(HEADER_NAME, HeaderValue::from_str(&token(b"other")).unwrap());
    let plan = plan_request("/telegram/getMe", None, &headers, Some(b"s"), &allowlist());
    assert!(matches!(plan, Plan::Reject(Rejection::Unauthorized { .. })));
}

#[test]
fn protected_target_with_good_token_is_forwarded() {
    let mut headers = HeaderMap::new();
    headers.insert(HEADER_NAME, HeaderValue::from_str(&token(b"s")).unwrap());
    match plan_request("/telegram/bot1/getMe", None, &headers, Some(b"s"), &allowlist()) {
        Plan::Forward(f) => assert_eq!(f.url, "https://api.telegram.org/bot1/getMe"),
        other => panic!("unexpected: {:?}", other),
    }
}

#[test]
fn unparsable_upstream_uri_gets_502() {
    let headers = HeaderMap::new();
    match plan_request("/broken/x", None, &headers, None, &allowlist()) {
        Plan::Reject(r) => {
            assert!(matches!(r, Rejection::InvalidUpstreamUri));
            assert_eq!(r.status(), 502);
            assert_eq!(r.body(), "Invalid upstream URI\n");
        }
        other => panic!("unexpected: {:?}", other),
    }
}

#[test]
fn upstream_url_shapes() {
    assert_eq!(upstream_url("h.example", "", None), "https://h.example");
    assert_eq!(upstream_url("h.example", "a/b", None), "https://h.example/a/b");
    assert_eq!(upstream_url("h.example", "", Some("q=1")), "https://h.example?q=1");
    assert_eq!(upstream_url("h.example", "a", Some("")), "https://h.example/a?");
}

#[test]
fn hop_by_hop_headers() {
    for name in [
        "connection",
        "keep-alive",
        "proxy-authenticate",
        "proxy-authorization",
        "te",
        "trailer",
        "transfer-encoding",
        "upgrade",
        "host",
    ] {
        assert!(is_hop_by_hop(name), "{}", name);
        assert!(!forwards_request_header(name), "{}", name);
    }
    assert!(!is_hop_by_hop("content-type"));
    assert!(!is_hop_by_hop("tee"));
}

#[test]
fn proxy_headers_are_not_forwarded() {
    assert!(!forwards_request_header(HEADER_NAME));
    assert!(!forwards_request_header(HOST_HEADER_NAME));
    assert!(forwards_request_header("content-type"));
    assert!(forwards_request_header("authorization"));
}

#[test]
fn rejection_statuses_and_bodies() {
    assert_eq!(Rejection::RequestBuildFailed.status(), 500);
    assert_eq!(
        Rejection::RequestBuildFailed.body(),
        "Failed to build upstream request\n"
    );
    assert_eq!(Rejection::UpstreamFailed.status(), 502);
    assert_eq!(Rejection::UpstreamFailed.body(), "Upstream request failed\n");
    assert_eq!(Rejection::ResponseBuildFailed.status(), 500);
    assert_eq!(Rejection::ResponseBuildFailed.body(), "Response build failed\n");
}

#[test]
fn request_headers_forwarded_upstream() {
    let mut incoming = HeaderMap::new();
    incoming.insert("content-type", HeaderValue::from_static("application/json"));
    incoming.append("accept", HeaderValue::from_static("text/plain"));
    incoming.append("accept", HeaderValue::from_static("text/html"));
    incoming.insert("connection", HeaderValue::from_static("keep-alive"));
    incoming.insert("host", HeaderValue::from_static("localhost:8080"));
    incoming.insert(HEADER_NAME, HeaderValue::from_static("secret-token"));
    incoming.insert(HOST_HEADER_NAME, HeaderValue::from_static("kucoin"));
    let mut out = HeaderMap::new();
    assert_eq!(forward_request_headers(&incoming, "api.kucoin.com", &mut out), Ok(()));
    assert_eq!(out.get("content-type").unwrap(), "application/json");
    // A name with several values keeps only its last one.
    let accept: Vec<_> = out.get_all("accept").iter().collect();
    assert_eq!(accept, vec!["text/html"]);
    assert!(out.get("connection").is_none());
    assert!(out.get(HEADER_NAME).is_none());
    assert!(out.get(HOST_HEADER_NAME).is_none());
    assert_eq!(out.get("host").unwrap(), "api.kucoin.com");
    assert_eq!(out.len(), 3);
}

#[test]
fn invalid_upstream_host_leaves_headers_untouched() {
    let mut incoming = HeaderMap::new();
    incoming.insert("content-type", HeaderValue::from_static("text/plain"));
    let mut out = HeaderMap::new();
    out.insert("x-existing", HeaderValue::from_static("1"));
    assert_eq!(
        forward_request_headers(&incoming, "bad\nhost", &mut out),
        Err(HeaderCopyError::InvalidHost)
    );
    assert_eq!(out.len(), 1);
    // Non-ASCII text is accepted as a header value.
    let mut out = HeaderMap::new();
    assert_eq!(forward_request_headers(&incoming, "h\u{e9}st", &mut out), Ok(()));
    let mut out = HeaderMap::new();
    out.insert("x-existing", HeaderValue::from_static("1"));
    assert_eq!(
        forward_request_headers(&incoming, "bad\u{7f}host", &mut out),
        Err(HeaderCopyError::InvalidHost)
    );
    assert_eq!(out.len(), 1);
    assert!(out.get("content-type").is_none());
}

#[test]
fn response_headers_drop_only_hop_by_hop() {
    let mut incoming = HeaderMap::new();
    incoming.insert("content-type", HeaderValue::from_static("text/plain"));
    incoming.insert("transfer-encoding", HeaderValue::from_static("chunked"));
    incoming.insert(HEADER_NAME, HeaderValue::from_static("kept"));
    let mut out = HeaderMap::new();
    assert_eq!(forward_response_headers(&incoming, &mut out), Ok(()));
    assert_eq!(out.get("content-type").unwrap(), "text/plain");
    assert_eq!(out.get(HEADER_NAME).unwrap(), "kept");
    assert!(out.get("transfer-encoding").is_none());
    assert_eq!(out.len(), 2);
}
