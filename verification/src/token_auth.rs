//! Bearer-token verification against the OAuth server, for MCP
//! authentication.
use vstd::prelude::*;
use crate::mcp::{McpError, McpErrorCode};
use crate::oauth::{clone_strings, clone_opt_string, live_access_token, OAuthServer, TokenView};
use crate::text::{eq_ignore_ascii_case, opt_text, same_ignoring_ascii_case, texts};
use crate::time::Instant;

verus! {

/// A credential presented with a request: its scheme and its value.
#[derive(Debug, Clone)]
pub struct AccessToken {
    /// The authentication scheme, such as `Bearer`.
    pub scheme: String,
    /// The token value.
    pub token: String,
}

/// The claims attached to a verified request.
#[derive(Debug, Clone)]
pub struct VerifiedClaims {
    /// The client the token was issued to.
    pub client_id: String,
    /// The issuer of the OAuth server.
    pub iss: String,
    /// Whole seconds elapsed since the token was issued.
    pub iat: u64,
}

/// What a successful verification establishes about the caller.
#[derive(Debug, Clone)]
pub struct AuthContext {
    /// The user the token was issued for.
    pub subject: Option<String>,
    /// The scopes the token grants.
    pub scopes: Vec<String>,
    /// The credential that was presented.
    pub token: Option<AccessToken>,
    /// Claims about the token.
    pub claims: Option<VerifiedClaims>,
}

/// Verifies bearer tokens against an OAuth server.
pub struct OAuthTokenVerifier<'a> {
    server: &'a OAuthServer,
}

/// Whole seconds from `earlier` to `now`, zero where `now` is earlier, capped
/// at the largest `u64`.
pub open spec fn elapsed_secs(earlier: nat, now: nat) -> u64 {
    let secs = if now >= earlier { (now - earlier) / 1_000_000_000 } else { 0 };
    if secs > u64::MAX { u64::MAX } else { secs as u64 }
}

impl OAuthServer {
    /// A verifier that checks tokens against this server.
    pub fn token_verifier(&self) -> (v: OAuthTokenVerifier<'_>)
        ensures
            v.server() == self,
    {
        OAuthTokenVerifier { server: self }
    }
}

impl<'a> OAuthTokenVerifier<'a> {
    /// The server this verifier checks against.
    pub closed spec fn server(&self) -> &'a OAuthServer {
        self.server
    }

    /// Verifies `token` at time `now`.
    ///
    /// Only the `Bearer` scheme (in any ASCII case) is accepted; the token
    /// must be live on the server.  The context carries the token's subject
    /// and scopes, the credential, and claims naming the client, the
    /// server's issuer and the seconds since the token was issued.
    pub fn verify_at(&self, token: &AccessToken, now: Instant) -> (r: Result<AuthContext, McpError>)
        ensures
            verify_outcome(*self.server(), *token, now@, r),
    {
        if !eq_ignore_ascii_case(token.scheme.as_str(), "Bearer") {
            return Err(McpError::new(McpErrorCode::ResourceForbidden, "unsupported auth scheme".to_string()));
        }
        let info = match self.server.validate_access_token_at(token.token.as_str(), now) {
            Some(t) => t,
            None => {
                return Err(
                    McpError::new(McpErrorCode::ResourceForbidden, "invalid or expired token".to_string()),
                );
            },
        };
        let d = now.saturating_duration_since(info.issued_at);
        let s = d.as_secs();
        let iat: u64 = if s > u64::MAX as u128 {
            u64::MAX
        } else {
            s as u64
        };
        let claims = VerifiedClaims {
            client_id: info.client_id.clone(),
            iss: self.server.config().issuer.clone(),
            iat,
        };
        let presented = AccessToken { scheme: token.scheme.clone(), token: token.token.clone() };
        Ok(AuthContext {
            subject: clone_opt_string(&info.subject),
            scopes: clone_strings(&info.scopes),
            token: Some(presented),
            claims: Some(claims),
        })
    }

    /// Verifies `token` by the clock: the outcome of [`Self::verify_at`] at
    /// the instant the clock gives.
    pub fn verify(&self, token: &AccessToken) -> (r: Result<AuthContext, McpError>)
        ensures
            !same_ignoring_ascii_case(token.scheme@, "Bearer"@) ==> (r matches Err(e)
                && e.code == McpErrorCode::ResourceForbidden && e.message@ == "unsupported auth scheme"@),
            same_ignoring_ascii_case(token.scheme@, "Bearer"@) ==> !(r matches Err(e) && e.message@
                == "unsupported auth scheme"@),
            exists|now: nat| #[trigger] verify_outcome(*self.server(), *token, now, r),
    {
        let now = Instant::now();
        let r = self.verify_at(token, now);
        assert(verify_outcome(*self.server(), *token, now@, r));
        proof {
            reveal_strlit("unsupported auth scheme");
            reveal_strlit("invalid or expired token");
            assert("invalid or expired token"@.len() != "unsupported auth scheme"@.len());
        }
        r
    }
}

/// Whether `r` is the outcome of verifying `token` against `server` at time
/// `now`: only the `Bearer` scheme (in any ASCII case) is accepted, and the
/// token must be live on the server; the context then carries the token's
/// subject and scopes, the credential, and claims naming the client, the
/// server's issuer and the seconds since the token was issued.
pub open spec fn verify_outcome(server: OAuthServer, token: AccessToken, now: nat, r: Result<AuthContext, McpError>) -> bool {
    let bearer = same_ignoring_ascii_case(token.scheme@, "Bearer"@);
    let live = live_access_token(server@, token.token@, now);
    &&& !bearer ==> (r matches Err(e) && e.code == McpErrorCode::ResourceForbidden && e.message@
        == "unsupported auth scheme"@)
    &&& bearer && live is None ==> (r matches Err(e) && e.code == McpErrorCode::ResourceForbidden && e.message@
        == "invalid or expired token"@)
    &&& bearer && live is Some ==> ({
        let t = live->0;
        &&& r is Ok
        &&& opt_text(r->Ok_0.subject) == t.subject
        &&& texts(r->Ok_0.scopes@) == t.scopes
        &&& r->Ok_0.token is Some
        &&& r->Ok_0.token->0.scheme@ == token.scheme@
        &&& r->Ok_0.token->0.token@ == token.token@
        &&& r->Ok_0.claims is Some
        &&& r->Ok_0.claims->0.client_id@ == t.client_id
        &&& r->Ok_0.claims->0.iss@ == server.cfg().issuer@
        &&& r->Ok_0.claims->0.iat == elapsed_secs(t.issued_at, now)
    })
}

} // verus!
