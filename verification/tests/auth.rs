use bouncer::auth::{
    authorize, configured_secret, extract_token, secret_configured, signature_only_policy,
    verify, AuthError, TokenAlgorithm, HEADER_NAME,
};
use hyper::header::HeaderValue;
use hyper::HeaderMap;
use jsonwebtoken::{encode, Algorithm, EncodingKey, Header};
use std::time::{SystemTime, UNIX_EPOCH};

fn now() -> u64 {
    SystemTime::now()
        .duration_since(UNIX_EPOCH)
        .unwrap()
        .as_secs()
}

fn sign(exp: Option<u64>, nbf: Option<u64>, aud: Option<&str>, secret: &[u8]) -> String {
    let mut claims = serde_json::Map::new();
    if let Some(exp) = exp {
        claims.insert("exp".to_string(), serde_json::Value::from(exp));
    }
    if let Some(nbf) = nbf {
        claims.insert("nbf".to_string(), serde_json::Value::from(nbf));
    }
    if let Some(aud) = aud {
        claims.insert("aud".to_string(), serde_json::Value::from(aud));
    }
    encode(
        &Header::new(Algorithm::HS256),
        &serde_json::Value::Object(claims),
        &EncodingKey::from_secret(secret),
    )
    .unwrap()
}

#[test]
fn extract_token_missing_header() {
    let headers = HeaderMap::new();
    assert!(extract_token(&headers).is_none());
}

#[test]
fn extract_token_well_formed() {
    let mut headers = HeaderMap::new();
    headers.insert(HEADER_NAME, HeaderValue::from_static("abc123"));
    assert_eq!(extract_token(&headers), Some("abc123"));
}

#[test]
fn verify_accepts_token_with_no_claims() {
    let secret = b"test-secret";
    let token = sign(None, None, None, secret);
    assert!(verify(&token, secret).is_ok());
}

#[test]
fn verify_ignores_expired_exp_claim() {
    let secret = b"test-secret";
    let token = sign(Some(now() - 3600), None, None, secret);
    assert!(verify(&token, secret).is_ok());
}

#[test]
fn verify_ignores_future_nbf_claim() {
    let secret = b"test-secret";
    let token = sign(None, Some(now() + 3600), None, secret);
    assert!(verify(&token, secret).is_ok());
}

#[test]
fn verify_ignores_unconfigured_audience() {
    let secret = b"test-secret";
    let token = sign(None, None, Some("some-audience"), secret);
    assert!(verify(&token, secret).is_ok());
}

#[test]
fn verify_rejects_wrong_secret() {
    let token = sign(None, None, None, b"right-secret");
    assert!(verify(&token, b"wrong-secret").is_err());
}

#[test]
fn verify_rejects_malformed_token() {
    assert!(verify("not-a-jwt", b"test-secret").is_err());
}

#[test]
fn verify_error_is_an_invalid_token_with_its_reason() {
    match verify("not-a-jwt", b"test-secret") {
        Err(AuthError::InvalidToken(why)) => assert!(!why.is_empty()),
        other => panic!("unexpected: {:?}", other),
    }
}

#[test]
fn extract_token_is_trimmed() {
    let mut headers = HeaderMap::new();
    headers.insert(HEADER_NAME, HeaderValue::from_static("  abc123\t "));
    assert_eq!(extract_token(&headers), Some("abc123"));
}

#[test]
fn extract_token_of_unreadable_header_is_none() {
    let mut headers = HeaderMap::new();
    headers.insert(HEADER_NAME, HeaderValue::from_bytes(b"caf\xc3\xa9").unwrap());
    assert_eq!(extract_token(&headers), None);
}

#[test]
fn extract_token_takes_the_first_value() {
    let mut headers = HeaderMap::new();
    headers.append(HEADER_NAME, HeaderValue::from_static("first"));
    headers.append(HEADER_NAME, HeaderValue::from_static("second"));
    assert_eq!(extract_token(&headers), Some("first"));
}

#[test]
fn extract_token_ignores_other_headers() {
    let mut headers = HeaderMap::new();
    headers.insert("authorization", HeaderValue::from_static("Bearer abc"));
    assert_eq!(extract_token(&headers), None);
}

#[test]
fn authorize_fails_closed_without_secret() {
    let secret = b"test-secret";
    let mut headers = HeaderMap::new();
    let token = sign(None, None, None, secret);
    headers.insert(HEADER_NAME, HeaderValue::from_str(&token).unwrap());
    assert_eq!(authorize(None, &headers), Err(AuthError::SecretNotConfigured));
    assert_eq!(authorize(Some(secret), &headers), Ok(()));
}

#[test]
fn authorize_needs_the_token_header() {
    let headers = HeaderMap::new();
    assert_eq!(authorize(Some(b"s"), &headers), Err(AuthError::MissingToken));
}

#[test]
fn authorize_rejects_a_token_signed_with_another_secret() {
    let mut headers = HeaderMap::new();
    let token = sign(None, None, None, b"other");
    headers.insert(HEADER_NAME, HeaderValue::from_str(&format!(" {} ", token)).unwrap());
    assert!(matches!(
        authorize(Some(b"test-secret"), &headers),
        Err(AuthError::InvalidToken(_))
    ));
    // The refusal carries the same reason that `verify` gives.
    assert_eq!(
        authorize(Some(b"test-secret"), &headers),
        verify(&token, b"test-secret")
    );
    assert_eq!(
        verify(&token, b"test-secret"),
        Err(AuthError::InvalidToken("InvalidSignature".to_string()))
    );
}

#[test]
fn signature_only_policy_checks_no_claim() {
    let p = signature_only_policy();
    assert_eq!(p.algorithm, TokenAlgorithm::HS256);
    assert!(!p.validate_exp && !p.validate_nbf && !p.validate_aud);
    assert!(p.required_claims.is_empty());
}

#[test]
fn empty_secret_counts_as_none() {
    assert_eq!(configured_secret(Some(Vec::new())), None);
    assert_eq!(configured_secret(None), None);
    assert_eq!(configured_secret(Some(b"k".to_vec())), Some(b"k".to_vec()));
    assert!(!secret_configured(&configured_secret(Some(Vec::new()))));
    assert!(secret_configured(&configured_secret(Some(b"k".to_vec()))));
}

#[test]
fn auth_errors_describe_themselves() {
    assert_eq!(
        AuthError::SecretNotConfigured.describe(),
        "JWT_SECRET not configured"
    );
    assert_eq!(
        AuthError::MissingToken.describe(),
        "missing x-bouncer-token header"
    );
    assert_eq!(
        AuthError::InvalidToken("InvalidSignature".to_string()).describe(),
        "token validation failed: InvalidSignature"
    );
}
