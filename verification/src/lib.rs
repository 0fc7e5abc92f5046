//! Verified OAuth 2.1 / OpenID Connect server logic, rate limiting and
//! routing helpers for an MCP server.
#![allow(unused_imports)]

pub mod text;
pub mod time;
pub mod store;
pub mod crypto;
pub mod json;
pub mod oauth;
pub mod oauth_laws;
pub mod mcp;
pub mod token_auth;
pub mod rate_limiting;
pub mod router;
pub mod oidc;
pub mod session;
pub mod proxy;
