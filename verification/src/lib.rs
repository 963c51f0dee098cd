//! Allowlist-based reverse proxy: routing, authorization and allowlist rules.
pub mod allowlist;
pub mod auth;
pub mod headers;
pub mod proxy;
pub mod routing;
pub mod text;
