//! Token authorization: the shared secret, the token header and the
//! signature check that a protected target asks for.
use vstd::prelude::*;
use vstd::string::StringExecFns;
use hyper::header::HeaderMap;
use crate::headers::{header_str, is_plain_header_name, spec_header_str};
use crate::routing::opt_str_view;
use crate::text::{trim, trim_whitespace};

verus! {

/// Header that carries the bearer token.
pub const HEADER_NAME: &'static str = "x-bouncer-token";

/// `jsonwebtoken::errors::Error`, the error of `jsonwebtoken::decode`; opaque.
#[verifier::external_type_specification]
#[verifier::external_body]
pub struct ExJwtError(jsonwebtoken::errors::Error);

/// The HMAC algorithms that a token may be signed with.
#[derive(Debug, Clone, Copy, PartialEq, Eq)]
pub enum TokenAlgorithm {
    HS256,
    HS384,
    HS512,
}

/// What a token must pass, besides its signature under the algorithm: an
/// unexpired `exp`, a reached `nbf`, a known `aud`, and the registered claims
/// (of `exp`, `nbf`, `aud`, `iss`, `sub`) that must be present.
#[derive(Debug)]
pub struct TokenPolicy {
    pub algorithm: TokenAlgorithm,
    pub validate_exp: bool,
    pub validate_nbf: bool,
    pub validate_aud: bool,
    pub required_claims: Vec<String>,
}

/// A token policy as plain values.
pub struct TokenPolicyView {
    pub algorithm: TokenAlgorithm,
    pub validate_exp: bool,
    pub validate_nbf: bool,
    pub validate_aud: bool,
    pub required_claims: Seq<Seq<char>>,
}

impl View for TokenPolicy {
    type V = TokenPolicyView;

    open spec fn view(&self) -> TokenPolicyView {
        TokenPolicyView {
            algorithm: self.algorithm,
            validate_exp: self.validate_exp,
            validate_nbf: self.validate_nbf,
            validate_aud: self.validate_aud,
            required_claims: self.required_claims@.map_values(|c: String| c@),
        }
    }
}

/// The proxy's policy: an HS256 signature and nothing else; no claim is
/// required or checked.
pub open spec fn signature_only() -> TokenPolicyView {
    TokenPolicyView {
        algorithm: TokenAlgorithm::HS256,
        validate_exp: false,
        validate_nbf: false,
        validate_aud: false,
        required_claims: Seq::empty(),
    }
}

/// Builds the proxy's token policy.
pub fn signature_only_policy() -> (p: TokenPolicy)
    ensures
        p@ == signature_only(),
{
    let p = TokenPolicy {
        algorithm: TokenAlgorithm::HS256,
        validate_exp: false,
        validate_nbf: false,
        validate_aud: false,
        required_claims: Vec::new(),
    };
    assert(p@.required_claims =~= Seq::<Seq<char>>::empty());
    p
}

/// What `jsonwebtoken::decode` makes of `token` under a key made from
/// `secret` and a policy that reads no clock and requires at most one claim:
/// `None` when it accepts the token, else the text (`Display`) of the error
/// it gives.
pub uninterp spec fn jwt_verdict(token: Seq<char>, secret: Seq<u8>, policy: TokenPolicyView) -> Option<Seq<char>>;

/// The text (`Display`) of a `jsonwebtoken` error.
pub uninterp spec fn jwt_error_display(e: jsonwebtoken::errors::Error) -> Seq<char>;

/// Why a request was not authorized.
#[derive(Debug, PartialEq, Eq)]
pub enum AuthError {
    /// No secret is configured, so no token can be accepted.
    SecretNotConfigured,
    /// The request carries no readable token header.
    MissingToken,
    /// The token was refused; the text says why.
    InvalidToken(String),
}

/// `jsonwebtoken::decode`, with a `Validation` and an HMAC `DecodingKey`
/// converted one for one from `policy` and `secret`; the claims are read as
/// a JSON object whose values are not kept. It succeeds exactly when
/// `jwt_verdict` is `None`, and its error has the text that `jwt_verdict`
/// gives. The clock-reading checks must be off, and at most one claim may be
/// required (with more, which missing claim the error names depends on the
/// order in which a hash set is walked).
#[verifier::external_body]
fn decode_token(token: &str, secret: &[u8], policy: &TokenPolicy) -> (r: Result<(), jsonwebtoken::errors::Error>)
    requires
        !policy.validate_exp,
        !policy.validate_nbf,
        policy.required_claims@.len() <= 1,
    ensures
        r is Ok <==> jwt_verdict(token@, secret@, policy@) is None,
        r matches Err(e) ==> jwt_verdict(token@, secret@, policy@) == Some(jwt_error_display(e)),
{
    let mut validation = jsonwebtoken::Validation::new(match policy.algorithm {
        TokenAlgorithm::HS256 => jsonwebtoken::Algorithm::HS256,
        TokenAlgorithm::HS384 => jsonwebtoken::Algorithm::HS384,
        TokenAlgorithm::HS512 => jsonwebtoken::Algorithm::HS512,
    });
    validation.validate_exp = policy.validate_exp;
    validation.validate_nbf = policy.validate_nbf;
    validation.validate_aud = policy.validate_aud;
    validation.required_spec_claims = policy.required_claims.iter().cloned().collect();
    let key = jsonwebtoken::DecodingKey::from_secret(secret);
    jsonwebtoken::decode::<std::collections::HashMap<String, serde::de::IgnoredAny>>(
        token,
        &key,
        &validation,
    ).map(|_| ())
}

/// The `Display` text of a `jsonwebtoken` error.
#[verifier::external_body]
fn jwt_error_text(e: &jsonwebtoken::errors::Error) -> (r: String)
    ensures
        r@ == jwt_error_display(*e),
{
    format!("{e}")
}

/// The view of an optional byte vector.
pub open spec fn opt_bytes_view(s: &Option<Vec<u8>>) -> Option<Seq<u8>> {
    match s {
        Some(v) => Some(v@),
        None => None,
    }
}

/// The secret in force for a raw environment value: an empty value counts as
/// none.
pub fn configured_secret(raw: Option<Vec<u8>>) -> (r: Option<Vec<u8>>)
    ensures
        opt_bytes_view(&r) == match opt_bytes_view(&raw) {
            Some(v) => if v.len() > 0 { Some(v) } else { None },
            None => None,
        },
{
    match raw {
        Some(v) => if v.len() > 0 { Some(v) } else { None },
        None => None,
    }
}

/// Whether a secret is configured.
pub fn secret_configured(secret: &Option<Vec<u8>>) -> (r: bool)
    ensures
        r == secret.is_some(),
{
    secret.is_some()
}

/// The token a request carries: the trimmed text of its token header.
pub open spec fn spec_token(headers: HeaderMap) -> Option<Seq<char>> {
    match spec_header_str(headers, HEADER_NAME@) {
        Some(v) => Some(trim_whitespace(v)),
        None => None,
    }
}

/// A request is authorized when a secret is configured, it carries a token
/// and the token passes the signature-only policy under that secret.
pub open spec fn spec_authorized(secret: Option<Seq<u8>>, headers: HeaderMap) -> bool {
    &&& secret is Some
    &&& spec_token(headers) is Some
    &&& jwt_verdict(spec_token(headers)->0, secret->0, signature_only()) is None
}

proof fn lemma_header_name_is_plain()
    ensures
        is_plain_header_name(HEADER_NAME@),
{
    reveal_strlit("x-bouncer-token");
}

/// The token from the token header, trimmed, when the header is present and
/// readable as text.
pub fn extract_token(headers: &HeaderMap) -> (r: Option<&str>)
    ensures
        opt_str_view(r) == spec_token(*headers),
{
    proof {
        lemma_header_name_is_plain();
    }
    match header_str(headers, HEADER_NAME) {
        Some(value) => Some(trim(value)),
        None => None,
    }
}

/// Checks `token` against `secret` under the signature-only policy: only the
/// HS256 signature is checked. A refusal carries the decoder's reason.
pub fn verify(token: &str, secret: &[u8]) -> (r: Result<(), AuthError>)
    ensures
        r is Ok <==> jwt_verdict(token@, secret@, signature_only()) is None,
        r matches Err(e) ==> (e matches AuthError::InvalidToken(why) && jwt_verdict(
            token@,
            secret@,
            signature_only(),
        ) == Some(why@)),
{
    let policy = signature_only_policy();
    assert(policy.required_claims@.len() == policy@.required_claims.len());
    match decode_token(token, secret, &policy) {
        Ok(()) => Ok(()),
        Err(e) => Err(AuthError::InvalidToken(jwt_error_text(&e))),
    }
}

/// The view of an optional byte slice.
pub open spec fn opt_slice_view(s: Option<&[u8]>) -> Option<Seq<u8>> {
    match s {
        Some(b) => Some(b@),
        None => None,
    }
}

/// The error that an unauthorized request gets: no secret, else no token,
/// else a refused token.
pub open spec fn spec_auth_failure(secret: Option<Seq<u8>>, headers: HeaderMap, e: AuthError) -> bool {
    if secret is None {
        e == AuthError::SecretNotConfigured
    } else if spec_token(headers) is None {
        e == AuthError::MissingToken
    } else {
        e matches AuthError::InvalidToken(why) && jwt_verdict(
            spec_token(headers)->0,
            secret->0,
            signature_only(),
        ) == Some(why@)
    }
}

/// Authorizes a request by its headers under the configured secret; fails
/// closed when no secret is configured.
pub fn authorize(secret: Option<&[u8]>, headers: &HeaderMap) -> (r: Result<(), AuthError>)
    ensures
        r is Ok <==> spec_authorized(opt_slice_view(secret), *headers),
        r matches Err(e) ==> spec_auth_failure(opt_slice_view(secret), *headers, e),
{
    let secret = match secret {
        Some(s) => s,
        None => return Err(AuthError::SecretNotConfigured),
    };
    let token = match extract_token(headers) {
        Some(t) => t,
        None => return Err(AuthError::MissingToken),
    };
    verify(token, secret)
}

impl AuthError {
    /// The text that says why authorization failed.
    pub fn describe(&self) -> (r: String)
        ensures
            r@ == match self {
                AuthError::SecretNotConfigured => "JWT_SECRET not configured"@,
                AuthError::MissingToken => "missing "@ + HEADER_NAME@ + " header"@,
                AuthError::InvalidToken(why) => "token validation failed: "@ + why@,
            },
    {
        match self {
            AuthError::SecretNotConfigured => String::from_str("JWT_SECRET not configured"),
            AuthError::MissingToken => {
                let mut s = String::from_str("missing ");
                s.append(HEADER_NAME);
                s.append(" header");
                s
            },
            AuthError::InvalidToken(why) => {
                let mut s = String::from_str("token validation failed: ");
                s.append(why.as_str());
                s
            },
        }
    }
}

/// With a secret configured and a token header present, a request is
/// authorized exactly when the header's text, trimmed, passes the HS256
/// signature check under the secret with no claim required or checked; a
/// refused request gets that check's reason and nothing else.
pub proof fn law_authorize_is_signature_check(
    secret: Seq<u8>,
    headers: HeaderMap,
    value: Seq<char>,
    e: AuthError,
)
    requires
        spec_header_str(headers, "x-bouncer-token"@) == Some(value),
    ensures
        ({
            let policy = TokenPolicyView {
                algorithm: TokenAlgorithm::HS256,
                validate_exp: false,
                validate_nbf: false,
                validate_aud: false,
                required_claims: Seq::empty(),
            };
            &&& spec_authorized(Some(secret), headers) <==> jwt_verdict(
                trim_whitespace(value),
                secret,
                policy,
            ) is None
            &&& spec_auth_failure(Some(secret), headers, e) <==> (e matches AuthError::InvalidToken(
                why,
            ) && jwt_verdict(trim_whitespace(value), secret, policy) == Some(why@))
        }),
{
}

} // verus!
