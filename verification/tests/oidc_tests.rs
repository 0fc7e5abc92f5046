//! Tests of user claims, discovery documents, the claims providers and the
//! OpenID Connect provider.
use fastmcp_server::crypto::{base64url_encode, hmac_sha256, sha256_digest};
use fastmcp_server::oauth::{
    AuthorizationRequest, CodeChallengeMethod, OAuthClient, OAuthError, OAuthServer,
    OAuthServerConfig, TokenRequest,
};
use fastmcp_server::oidc::{
    generate_random_bytes,
    resolve_user_claims, validate_oidc_config, AddressClaim, ClaimsProvider, DiscoveryDocument,
    IdToken, IdTokenClaims, InMemoryClaimsProvider, OidcError, OidcProvider, OidcProviderConfig,
    SigningAlgorithm, SigningKey, UserClaims,
};
use base64::Engine;
use fastmcp_server::time::Duration;

const TEST_CLIENT_ID: &str = "test-client";
const TEST_REDIRECT_URI: &str = "http://localhost:3000/callback";
const TEST_CODE_VERIFIER: &str = "dBjftJeZ4CVP-mB92K27uhbUJU1p1r_wW1gFWFOEjXk";

type Provider = OidcProvider<InMemoryClaimsProvider>;

/// A claims provider backed by a function.
struct FnProvider<F>(F);

impl<F: Fn(&str) -> Option<UserClaims>> ClaimsProvider for FnProvider<F> {
    fn get_claims(&self, subject: &str) -> Option<UserClaims> {
        (self.0)(subject)
    }
}

fn create_test_provider() -> Provider {
    let oauth = OAuthServer::new(OAuthServerConfig::default());
    OidcProvider::with_defaults(oauth).expect("create provider")
}

fn issue_token_via_auth_code(oauth: &mut OAuthServer, scopes: &[&str], subject: &str) -> String {
    let mut client_builder = OAuthClient::builder(TEST_CLIENT_ID).redirect_uri(TEST_REDIRECT_URI);
    for scope in scopes {
        client_builder = client_builder.scope(*scope);
    }
    let client = client_builder.build().expect("build client");
    oauth.register_client(client).expect("register client");

    let auth_request = AuthorizationRequest {
        response_type: "code".to_string(),
        client_id: TEST_CLIENT_ID.to_string(),
        redirect_uri: TEST_REDIRECT_URI.to_string(),
        scopes: scopes.iter().map(|scope| (*scope).to_string()).collect(),
        state: Some("state-123".to_string()),
        code_challenge: TEST_CODE_VERIFIER.to_string(),
        code_challenge_method: CodeChallengeMethod::Plain,
    };

    let (code, _redirect) = oauth
        .authorize(&auth_request, Some(subject.to_string()))
        .expect("authorize");
    oauth
        .token(&TokenRequest {
            grant_type: "authorization_code".to_string(),
            code: Some(code),
            redirect_uri: Some(TEST_REDIRECT_URI.to_string()),
            client_id: TEST_CLIENT_ID.to_string(),
            client_secret: None,
            code_verifier: Some(TEST_CODE_VERIFIER.to_string()),
            refresh_token: None,
            scopes: None,
        })
        .expect("exchange token")
        .access_token
}

/// A provider on a server that has issued an access token for `subject`
/// with `scopes`, and that token.
fn provider_with_token(scopes: &[&str], subject: &str) -> (Provider, String) {
    let mut oauth = OAuthServer::new(OAuthServerConfig::default());
    let at = issue_token_via_auth_code(&mut oauth, scopes, subject);
    (OidcProvider::with_defaults(oauth).expect("create provider"), at)
}

/// The JSON document of the claims, as far as the tests read it back.
fn claims_json(claims: &IdTokenClaims) -> Vec<u8> {
    let mut m = serde_json::Map::new();
    m.insert("iss".to_string(), serde_json::Value::from(claims.iss.clone()));
    m.insert("sub".to_string(), serde_json::Value::from(claims.sub.clone()));
    m.insert("aud".to_string(), serde_json::Value::from(claims.aud.clone()));
    if let Some(n) = &claims.nonce {
        m.insert("nonce".to_string(), serde_json::Value::from(n.clone()));
    }
    serde_json::to_vec(&serde_json::Value::Object(m)).unwrap()
}

/// Issues an ID token: prepares the claims, writes them as JSON and signs.
fn issue_id_token<P: ClaimsProvider>(
    provider: &mut OidcProvider<P>,
    access_token: &str,
    nonce: Option<&str>,
) -> Result<IdToken, OidcError> {
    let token = provider.oauth().validate_access_token(access_token).expect("valid access token");
    let claims = provider.prepare_id_token(&token, nonce)?;
    let json = claims_json(&claims);
    provider.finish_id_token(access_token, claims, &json)
}

#[test]
fn test_user_claims_builder() {
    let claims = UserClaims::new("user123")
        .with_name("John Doe")
        .with_email("john@example.com")
        .with_email_verified(true)
        .with_preferred_username("johnd");

    assert_eq!(claims.sub, "user123");
    assert_eq!(claims.name, Some("John Doe".to_string()));
    assert_eq!(claims.email, Some("john@example.com".to_string()));
    assert_eq!(claims.email_verified, Some(true));
    assert_eq!(claims.preferred_username, Some("johnd".to_string()));
}

#[test]
fn test_claims_filter_by_scopes() {
    let claims = UserClaims::new("user123")
        .with_name("John Doe")
        .with_email("john@example.com")
        .with_phone_number("+1234567890");

    // Only openid scope - just sub
    let filtered = claims.filter_by_scopes(&["openid".to_string()]);
    assert_eq!(filtered.sub, "user123");
    assert!(filtered.name.is_none());
    assert!(filtered.email.is_none());

    // Profile scope
    let filtered = claims.filter_by_scopes(&["openid".to_string(), "profile".to_string()]);
    assert_eq!(filtered.name, Some("John Doe".to_string()));
    assert!(filtered.email.is_none());

    // Email scope
    let filtered = claims.filter_by_scopes(&["openid".to_string(), "email".to_string()]);
    assert!(filtered.name.is_none());
    assert_eq!(filtered.email, Some("john@example.com".to_string()));

    // All scopes
    let filtered = claims.filter_by_scopes(&[
        "openid".to_string(),
        "profile".to_string(),
        "email".to_string(),
        "phone".to_string(),
    ]);
    assert_eq!(filtered.name, Some("John Doe".to_string()));
    assert_eq!(filtered.email, Some("john@example.com".to_string()));
    assert_eq!(filtered.phone_number, Some("+1234567890".to_string()));
}

#[test]
fn test_discovery_document() {
    let provider = create_test_provider();
    let doc = provider.discovery_document("https://example.com");

    assert_eq!(doc.issuer, "fastmcp");
    assert_eq!(doc.authorization_endpoint, "https://example.com/authorize");
    assert_eq!(doc.token_endpoint, "https://example.com/token");
    assert!(doc.jwks_uri.is_none(), "HS256 must not publish jwks_uri");
    assert!(doc.scopes_supported.contains(&"openid".to_string()));
    assert!(doc.response_types_supported.contains(&"code".to_string()));
}

#[test]
fn test_rs256_requires_jwt_feature() {
    let oauth = OAuthServer::new(OAuthServerConfig::default());
    let mut config = OidcProviderConfig::default();
    config.signing_algorithm = SigningAlgorithm::RS256;
    config.key_id = Some("test-kid".to_string());
    config.rsa_private_key_pem = Some(b"dummy".to_vec());
    config.jwks = Some(
        "{\"keys\":[{\"kty\":\"RSA\",\"kid\":\"test-kid\",\"n\":\"x\",\"e\":\"AQAB\"}]}".to_string(),
    );

    let res: Result<Provider, OidcError> = OidcProvider::new(oauth, config);
    assert!(res.is_err(), "expected RS256 to be rejected without jwt feature");
}

#[test]
fn test_in_memory_claims_provider() {
    let mut provider = InMemoryClaimsProvider::new();

    let claims = UserClaims::new("user123")
        .with_name("John Doe")
        .with_email("john@example.com");

    provider.set_claims(claims);

    let retrieved = provider.get_claims("user123");
    assert!(retrieved.is_some());
    assert_eq!(retrieved.unwrap().name, Some("John Doe".to_string()));

    assert!(provider.get_claims("nonexistent").is_none());

    provider.remove_claims("user123");
    assert!(provider.get_claims("user123").is_none());
}

#[test]
fn test_fn_claims_provider() {
    let provider = FnProvider(|subject: &str| {
        if subject == "user123" {
            Some(UserClaims::new(subject).with_name("John Doe"))
        } else {
            None
        }
    });

    let claims = provider.get_claims("user123");
    assert!(claims.is_some());
    assert_eq!(claims.unwrap().name, Some("John Doe".to_string()));

    assert!(provider.get_claims("other").is_none());
}

#[test]
fn test_signing_algorithm() {
    assert_eq!(SigningAlgorithm::HS256.as_str(), "HS256");
    assert_eq!(SigningAlgorithm::RS256.as_str(), "RS256");
}

#[test]
fn test_oidc_error_display() {
    let err = OidcError::MissingOpenIdScope;
    assert_eq!(err.to_string(), "missing 'openid' scope");

    let err = OidcError::ClaimsNotFound("user123".to_string());
    assert!(err.to_string().contains("user123"));
}

#[test]
fn oidc_test_base64url_encode() {
    assert_eq!(base64url_encode(b""), "");
    assert_eq!(base64url_encode(b"f"), "Zg");
    assert_eq!(base64url_encode(b"fo"), "Zm8");
    assert_eq!(base64url_encode(b"foo"), "Zm9v");
}

#[test]
fn test_id_token_issuance() {
    let (mut provider, at) = provider_with_token(&["openid", "profile", "email"], "user123");

    // Set up claims provider
    let mut claims_provider = InMemoryClaimsProvider::new();
    claims_provider.set_claims(
        UserClaims::new("user123")
            .with_name("John Doe")
            .with_email("john@example.com"),
    );
    provider.set_claims_provider(claims_provider);

    // Set signing key
    provider.set_hmac_key(b"test-secret-key");

    let issued = issue_id_token(&mut provider, &at, Some("nonce123")).expect("issue id token");
    assert!(!issued.raw.is_empty());
    assert!(issued.raw.contains('.'));
    assert_eq!(issued.claims.sub, "user123");
    assert_eq!(issued.claims.aud, TEST_CLIENT_ID);
    assert_eq!(issued.claims.nonce, Some("nonce123".to_string()));
    assert_eq!(issued.claims.user_claims.name, Some("John Doe".to_string()));
}

#[test]
fn test_id_token_requires_openid_scope() {
    let (mut provider, at) = provider_with_token(&["profile"], "user123");
    let result = issue_id_token(&mut provider, &at, None);
    assert!(matches!(result, Err(OidcError::MissingOpenIdScope)));
}

#[test]
fn test_userinfo() {
    let (mut provider, at) = provider_with_token(&["openid", "profile"], "user123");

    // Set up claims
    let mut claims_store = InMemoryClaimsProvider::new();
    claims_store.set_claims(UserClaims::new("user123").with_name("John Doe"));
    provider.set_claims_provider(claims_store);

    let result = provider.userinfo(&at);
    assert!(result.is_ok());

    let claims = result.unwrap();
    assert_eq!(claims.sub, "user123");
    assert_eq!(claims.name, Some("John Doe".to_string()));
}

#[test]
fn test_custom_claims() {
    let claims = UserClaims::new("user123")
        .with_custom("custom_field", "\"custom_value\"".to_string())
        .with_custom("roles", "[\"admin\",\"user\"]".to_string());

    assert_eq!(claims.custom.get("custom_field"), Some(&"\"custom_value\"".to_string()));
    assert_eq!(claims.custom.get("roles"), Some(&"[\"admin\",\"user\"]".to_string()));
}

#[test]
fn oidc_config_default_values() {
    let cfg = OidcProviderConfig::default();
    assert_eq!(cfg.issuer, "fastmcp");
    assert_eq!(cfg.id_token_lifetime, Duration::from_secs(3600));
    assert_eq!(cfg.signing_algorithm, SigningAlgorithm::HS256);
    assert!(cfg.key_id.is_none());
    assert!(cfg.rsa_private_key_pem.is_none());
    assert!(cfg.jwks.is_none());
    assert!(cfg.supported_claims.contains(&"sub".to_string()));
    assert!(cfg.supported_claims.contains(&"email".to_string()));
    assert!(cfg.supported_scopes.contains(&"openid".to_string()));
    assert!(cfg.supported_scopes.contains(&"profile".to_string()));
}

#[test]
fn config_debug() {
    let cfg = OidcProviderConfig::default();
    let debug = format!("{:?}", cfg);
    assert!(debug.contains("fastmcp"));
    assert!(debug.contains("HS256"));
}

#[test]
fn config_clone() {
    let cfg = OidcProviderConfig::default();
    let cloned = cfg.clone();
    assert_eq!(cloned.issuer, cfg.issuer);
    assert_eq!(cloned.signing_algorithm, cfg.signing_algorithm);
}

#[test]
fn signing_algorithm_copy() {
    let alg = SigningAlgorithm::HS256;
    let copied = alg;
    assert_eq!(alg, copied);
}

#[test]
fn signing_algorithm_eq() {
    assert_eq!(SigningAlgorithm::HS256, SigningAlgorithm::HS256);
    assert_eq!(SigningAlgorithm::RS256, SigningAlgorithm::RS256);
    assert_ne!(SigningAlgorithm::HS256, SigningAlgorithm::RS256);
}

#[test]
fn signing_algorithm_debug() {
    let debug = format!("{:?}", SigningAlgorithm::RS256);
    assert!(debug.contains("RS256"));
}

#[test]
fn signing_algorithm_clone() {
    let alg = SigningAlgorithm::RS256;
    let cloned = alg.clone();
    assert_eq!(alg, cloned);
}

#[test]
fn user_claims_with_given_name() {
    let claims = UserClaims::new("u").with_given_name("Jane");
    assert_eq!(claims.given_name, Some("Jane".to_string()));
}

#[test]
fn user_claims_with_family_name() {
    let claims = UserClaims::new("u").with_family_name("Smith");
    assert_eq!(claims.family_name, Some("Smith".to_string()));
}

#[test]
fn user_claims_with_phone_number() {
    let claims = UserClaims::new("u").with_phone_number("+15551234567");
    assert_eq!(claims.phone_number, Some("+15551234567".to_string()));
}

#[test]
fn user_claims_with_updated_at() {
    let claims = UserClaims::new("u").with_updated_at(1700000000);
    assert_eq!(claims.updated_at, Some(1700000000));
}

#[test]
fn user_claims_with_picture() {
    let claims = UserClaims::new("u").with_picture("https://example.com/pic.jpg");
    assert_eq!(claims.picture, Some("https://example.com/pic.jpg".to_string()));
}

#[test]
fn user_claims_debug() {
    let claims = UserClaims::new("dbg-user");
    let debug = format!("{:?}", claims);
    assert!(debug.contains("dbg-user"));
}

#[test]
fn user_claims_clone() {
    let claims = UserClaims::new("u1").with_name("Alice");
    let cloned = claims.clone();
    assert_eq!(cloned.sub, "u1");
    assert_eq!(cloned.name, Some("Alice".to_string()));
}

#[test]
fn user_claims_default() {
    let claims = UserClaims::default();
    assert_eq!(claims.sub, "");
    assert!(claims.name.is_none());
    assert!(claims.email.is_none());
    assert!(claims.custom.is_empty());
}

#[test]
fn filter_by_scopes_address() {
    let address = AddressClaim {
        formatted: Some("123 Main St".to_string()),
        ..Default::default()
    };
    let claims = UserClaims {
        sub: "u1".to_string(),
        address: Some(address),
        name: Some("Name".to_string()),
        ..Default::default()
    };

    // Only address scope
    let filtered = claims.filter_by_scopes(&["address".to_string()]);
    assert!(filtered.address.is_some());
    assert!(filtered.name.is_none());

    // Without address scope
    let filtered = claims.filter_by_scopes(&["profile".to_string()]);
    assert!(filtered.address.is_none());
    assert!(filtered.name.is_some());
}

#[test]
fn filter_by_scopes_phone_verified() {
    let claims = UserClaims {
        sub: "u1".to_string(),
        phone_number: Some("+1".to_string()),
        phone_number_verified: Some(true),
        ..Default::default()
    };

    let filtered = claims.filter_by_scopes(&["phone".to_string()]);
    assert_eq!(filtered.phone_number, Some("+1".to_string()));
    assert_eq!(filtered.phone_number_verified, Some(true));

    let filtered = claims.filter_by_scopes(&["email".to_string()]);
    assert!(filtered.phone_number.is_none());
    assert!(filtered.phone_number_verified.is_none());
}

#[test]
fn address_claim_default() {
    let addr = AddressClaim::default();
    assert!(addr.formatted.is_none());
    assert!(addr.street_address.is_none());
    assert!(addr.locality.is_none());
    assert!(addr.region.is_none());
    assert!(addr.postal_code.is_none());
    assert!(addr.country.is_none());
}

#[test]
fn address_claim_debug() {
    let addr = AddressClaim {
        country: Some("US".to_string()),
        ..Default::default()
    };
    let debug = format!("{:?}", addr);
    assert!(debug.contains("US"));
}

#[test]
fn address_claim_clone() {
    let addr = AddressClaim {
        locality: Some("NYC".to_string()),
        ..Default::default()
    };
    let cloned = addr.clone();
    assert_eq!(cloned.locality, Some("NYC".to_string()));
}

fn sample_id_claims(iss: &str, sub: &str, aud: &str) -> IdTokenClaims {
    IdTokenClaims {
        iss: iss.to_string(),
        sub: sub.to_string(),
        aud: aud.to_string(),
        exp: 999,
        iat: 100,
        auth_time: None,
        nonce: None,
        acr: None,
        amr: None,
        azp: None,
        at_hash: None,
        c_hash: None,
        user_claims: UserClaims::new(sub),
    }
}

#[test]
fn id_token_claims_debug() {
    let claims = sample_id_claims("iss", "sub", "aud");
    let debug = format!("{:?}", claims);
    assert!(debug.contains("iss"));
    assert!(debug.contains("sub"));
}

#[test]
fn id_token_claims_clone() {
    let claims = IdTokenClaims {
        iss: "issuer".to_string(),
        sub: "subject".to_string(),
        aud: "audience".to_string(),
        exp: 999,
        iat: 100,
        auth_time: Some(100),
        nonce: Some("n".to_string()),
        acr: Some("1".to_string()),
        amr: Some(vec!["pwd".to_string()]),
        azp: Some("azp".to_string()),
        at_hash: Some("hash".to_string()),
        c_hash: Some("chash".to_string()),
        user_claims: UserClaims::new("subject"),
    };
    let cloned = claims.clone();
    assert_eq!(cloned.iss, "issuer");
    assert_eq!(cloned.nonce, Some("n".to_string()));
    assert_eq!(cloned.amr, Some(vec!["pwd".to_string()]));
}

#[test]
fn id_token_debug() {
    let token = IdToken {
        raw: "header.payload.sig".to_string(),
        claims: sample_id_claims("i", "s", "a"),
    };
    let debug = format!("{:?}", token);
    assert!(debug.contains("header.payload.sig"));
}

#[test]
fn id_token_clone() {
    let token = IdToken {
        raw: "jwt-token".to_string(),
        claims: sample_id_claims("i", "s", "a"),
    };
    let cloned = token.clone();
    assert_eq!(cloned.raw, "jwt-token");
    assert_eq!(cloned.claims.sub, "s");
}

#[test]
fn discovery_document_new_defaults() {
    let doc = DiscoveryDocument::new("https://issuer.example", "https://api.example");
    assert_eq!(doc.issuer, "https://issuer.example");
    assert_eq!(doc.authorization_endpoint, "https://api.example/authorize");
    assert_eq!(doc.token_endpoint, "https://api.example/token");
    assert_eq!(doc.userinfo_endpoint, Some("https://api.example/userinfo".to_string()));
    assert_eq!(doc.revocation_endpoint, Some("https://api.example/revoke".to_string()));
    assert!(doc.jwks_uri.is_none());
    assert!(doc.registration_endpoint.is_none());
    assert!(doc.scopes_supported.contains(&"openid".to_string()));
    assert_eq!(doc.response_types_supported, vec!["code"]);
    assert_eq!(doc.response_modes_supported, Some(vec!["query".to_string()]));
    assert!(doc.grant_types_supported.contains(&"authorization_code".to_string()));
    assert!(doc.grant_types_supported.contains(&"refresh_token".to_string()));
    assert_eq!(doc.subject_types_supported, vec!["public"]);
    assert_eq!(doc.id_token_signing_alg_values_supported, vec!["HS256"]);
    assert!(doc
        .token_endpoint_auth_methods_supported
        .contains(&"client_secret_post".to_string()));
    assert!(doc.claims_supported.is_some());
    assert!(doc
        .code_challenge_methods_supported
        .as_ref()
        .unwrap()
        .contains(&"S256".to_string()));
}

#[test]
fn discovery_document_debug() {
    let doc = DiscoveryDocument::new("iss", "http://base");
    let debug = format!("{:?}", doc);
    assert!(debug.contains("iss"));
}

#[test]
fn discovery_document_clone() {
    let doc = DiscoveryDocument::new("iss", "http://base");
    let cloned = doc.clone();
    assert_eq!(cloned.issuer, "iss");
    assert_eq!(cloned.token_endpoint, doc.token_endpoint);
}

#[test]
fn oidc_error_oauth_display() {
    let inner = OAuthError::InvalidClient("bad".to_string());
    let err = OidcError::OAuth(inner);
    let msg = err.to_string();
    assert!(msg.contains("OAuth error"));
    assert!(msg.contains("bad"));
}

#[test]
fn oidc_error_signing_error_display() {
    let err = OidcError::SigningError("key problem".to_string());
    assert!(err.to_string().contains("signing error"));
    assert!(err.to_string().contains("key problem"));
}

#[test]
fn oidc_error_invalid_id_token_display() {
    let err = OidcError::InvalidIdToken("malformed".to_string());
    assert!(err.to_string().contains("invalid ID token"));
    assert!(err.to_string().contains("malformed"));
}

#[test]
fn oidc_error_debug() {
    let err = OidcError::MissingOpenIdScope;
    let debug = format!("{:?}", err);
    assert!(debug.contains("MissingOpenIdScope"));
}

#[test]
fn oidc_error_clone() {
    let err = OidcError::ClaimsNotFound("u".to_string());
    let cloned = err.clone();
    assert!(cloned.to_string().contains('u'));
}

#[test]
fn oidc_error_std_error() {
    // The error offers its display text through `to_string`.
    let err = OidcError::SigningError("x".to_string());
    assert!(err.to_string().contains('x'));
}

#[test]
fn oidc_error_from_oauth_error() {
    let oauth_err = OAuthError::InvalidGrant("expired".to_string());
    let oidc_err: OidcError = oauth_err.into();
    match &oidc_err {
        OidcError::OAuth(inner) => {
            assert!(inner.to_string().contains("expired"));
        }
        _ => panic!("expected OAuth variant"),
    }
}

#[test]
fn provider_config_accessor() {
    let provider = create_test_provider();
    let cfg = provider.config();
    assert_eq!(cfg.issuer, "fastmcp");
    assert_eq!(cfg.signing_algorithm, SigningAlgorithm::HS256);
}

#[test]
fn provider_oauth_accessor() {
    let provider = create_test_provider();
    let _oauth = provider.oauth();
    // Just check it returns without panic
}

#[test]
fn provider_set_hmac_key() {
    let (mut provider, at) = provider_with_token(&["openid"], "user1");
    provider.set_hmac_key(b"my-secret");
    // Verify it works by issuing a token (the key gets used during signing)
    let mut claims_store = InMemoryClaimsProvider::new();
    claims_store.set_claims(UserClaims::new("user1"));
    provider.set_claims_provider(claims_store);
    let result = issue_id_token(&mut provider, &at, None);
    assert!(result.is_ok());
}

#[test]
fn provider_set_claims_fn() {
    let mut oauth = OAuthServer::new(OAuthServerConfig::default());
    let at = issue_token_via_auth_code(&mut oauth, &["openid", "profile"], "fn-user");
    let mut provider = OidcProvider::with_defaults(oauth).unwrap();
    provider.set_claims_provider(FnProvider(|sub: &str| Some(UserClaims::new(sub).with_name("FnUser"))));
    provider.set_hmac_key(b"secret");
    let id_token = issue_id_token(&mut provider, &at, None).unwrap();
    assert_eq!(id_token.claims.user_claims.name, Some("FnUser".to_string()));
}

#[test]
fn provider_jwks_hs256_returns_none() {
    let provider = create_test_provider();
    assert!(provider.jwks().is_none());
}

#[test]
fn provider_get_id_token_nonexistent() {
    let provider = create_test_provider();
    assert!(provider.get_id_token("nonexistent-token").is_none());
}

#[test]
fn provider_get_id_token_after_issue() {
    let (mut provider, at) = provider_with_token(&["openid"], "cached-user");
    provider.set_hmac_key(b"key123");
    let mut claims_store = InMemoryClaimsProvider::new();
    claims_store.set_claims(UserClaims::new("cached-user"));
    provider.set_claims_provider(claims_store);
    issue_id_token(&mut provider, &at, Some("nonce1")).unwrap();

    // Should be retrievable via get_id_token
    let retrieved = provider.get_id_token(&at);
    assert!(retrieved.is_some());
    assert_eq!(retrieved.unwrap().claims.sub, "cached-user");
}

#[test]
fn provider_cleanup_expired() {
    let mut provider = create_test_provider();
    // cleanup_expired should run without panic even with empty cache
    provider.cleanup_expired();
}

#[test]
fn provider_issue_id_token_no_claims_provider() {
    // Without a claims provider, should use default UserClaims (just sub)
    let (mut provider, at) = provider_with_token(&["openid"], "default-user");
    provider.set_hmac_key(b"key");
    let id_token = issue_id_token(&mut provider, &at, None).unwrap();
    assert_eq!(id_token.claims.sub, "default-user");
    // No claims provider → default claims (no name, email, etc.)
    assert!(id_token.claims.user_claims.name.is_none());
}

#[test]
fn provider_issue_id_token_claims_not_found() {
    let (mut provider, at) = provider_with_token(&["openid"], "missing-user");
    provider.set_hmac_key(b"key");
    // Set claims provider that has no user "missing-user"
    let mut claims_store = InMemoryClaimsProvider::new();
    claims_store.set_claims(UserClaims::new("other-user"));
    provider.set_claims_provider(claims_store);
    let result = issue_id_token(&mut provider, &at, None);
    assert!(matches!(result, Err(OidcError::ClaimsNotFound(_))));
}

#[test]
fn provider_discovery_document_overrides_scopes_and_claims() {
    let mut config = OidcProviderConfig::default();
    config.supported_scopes = vec!["openid".to_string(), "custom".to_string()];
    config.supported_claims = vec!["sub".to_string(), "custom_field".to_string()];
    let oauth = OAuthServer::new(OAuthServerConfig::default());
    let provider: Provider = OidcProvider::new(oauth, config).unwrap();
    let doc = provider.discovery_document("https://api");
    assert!(doc.scopes_supported.contains(&"custom".to_string()));
    assert!(!doc.scopes_supported.contains(&"profile".to_string()));
    assert!(doc
        .claims_supported
        .as_ref()
        .unwrap()
        .contains(&"custom_field".to_string()));
}

#[test]
fn provider_issue_id_token_jwt_structure() {
    let (mut provider, at) = provider_with_token(&["openid"], "jwt-user");
    provider.set_hmac_key(b"secret");
    let id_token = issue_id_token(&mut provider, &at, None).unwrap();

    // JWT must have 3 parts
    let parts: Vec<&str> = id_token.raw.split('.').collect();
    assert_eq!(parts.len(), 3);
    // Each part is non-empty
    assert!(!parts[0].is_empty());
    assert!(!parts[1].is_empty());
    assert!(!parts[2].is_empty());
}

#[test]
fn provider_issue_id_token_auto_generates_key() {
    // Without set_hmac_key, should auto-generate a key
    let (mut provider, at) = provider_with_token(&["openid"], "auto-key-user");
    let result = issue_id_token(&mut provider, &at, None);
    assert!(result.is_ok());
}

#[test]
fn provider_userinfo_invalid_token() {
    let provider = create_test_provider();
    let result = provider.userinfo("invalid-access-token");
    assert!(matches!(result, Err(OidcError::OAuth(_))));
}

#[test]
fn provider_userinfo_without_openid_scope() {
    let (provider, at) = provider_with_token(&["profile"], "no-openid");
    let result = provider.userinfo(&at);
    assert!(matches!(result, Err(OidcError::MissingOpenIdScope)));
}

#[test]
fn in_memory_claims_provider_debug() {
    let provider = InMemoryClaimsProvider::new();
    let debug = format!("{:?}", provider);
    assert!(debug.contains("InMemoryClaimsProvider"));
}

#[test]
fn in_memory_claims_provider_default() {
    let provider = InMemoryClaimsProvider::default();
    assert!(provider.get_claims("any").is_none());
}

#[test]
fn in_memory_claims_provider_overwrite() {
    let mut provider = InMemoryClaimsProvider::new();
    provider.set_claims(UserClaims::new("u1").with_name("First"));
    provider.set_claims(UserClaims::new("u1").with_name("Second"));
    let claims = provider.get_claims("u1").unwrap();
    assert_eq!(claims.name, Some("Second".to_string()));
}

#[test]
fn simple_sha256_deterministic() {
    let hash1 = sha256_digest(b"hello world");
    let hash2 = sha256_digest(b"hello world");
    assert_eq!(hash1, hash2);
    assert_eq!(hash1.len(), 32);

    // Different input → different hash
    let hash3 = sha256_digest(b"different");
    assert_ne!(hash1, hash3);
}

#[test]
fn hmac_sha256_deterministic() {
    let sig1 = hmac_sha256(b"key", b"message").unwrap();
    let sig2 = hmac_sha256(b"key", b"message").unwrap();
    assert_eq!(sig1, sig2);
    assert_eq!(sig1.len(), 32);
}

#[test]
fn hmac_sha256_different_keys() {
    let sig1 = hmac_sha256(b"key1", b"msg").unwrap();
    let sig2 = hmac_sha256(b"key2", b"msg").unwrap();
    assert_ne!(sig1, sig2);
}

#[test]
fn hmac_sha256_different_messages() {
    let sig1 = hmac_sha256(b"key", b"msg1").unwrap();
    let sig2 = hmac_sha256(b"key", b"msg2").unwrap();
    assert_ne!(sig1, sig2);
}

#[test]
fn validate_config_hs256_always_ok() {
    let config = OidcProviderConfig::default();
    assert!(validate_oidc_config(&config).is_ok());
}

#[test]
fn validate_config_rs256_without_jwt_feature() {
    let mut config = OidcProviderConfig::default();
    config.signing_algorithm = SigningAlgorithm::RS256;
    let result = validate_oidc_config(&config);
    assert!(result.is_err());
    assert!(result.unwrap_err().to_string().contains("jwt"));
}

#[test]
fn signing_key_default_is_none() {
    let key = SigningKey::default();
    assert!(matches!(key, SigningKey::Unset));
}

#[test]
fn signing_key_clone() {
    let key = SigningKey::Hmac(vec![1, 2, 3]);
    let cloned = key.clone();
    match cloned {
        SigningKey::Hmac(bytes) => assert_eq!(bytes, vec![1, 2, 3]),
        SigningKey::Unset => panic!("expected Hmac"),
    }
}

#[test]
fn userinfo_claims_not_found() {
    let (mut provider, at) = provider_with_token(&["openid", "profile"], "missing-user");
    // Set a claims provider that only knows about "other-user"
    let mut store = InMemoryClaimsProvider::new();
    store.set_claims(UserClaims::new("other-user"));
    provider.set_claims_provider(store);
    let result = provider.userinfo(&at);
    assert!(matches!(result, Err(OidcError::ClaimsNotFound(_))));
}

#[test]
fn filter_by_scopes_profile_all_fields() {
    let claims = UserClaims {
        sub: "u".to_string(),
        name: Some("N".to_string()),
        given_name: Some("G".to_string()),
        family_name: Some("F".to_string()),
        middle_name: Some("M".to_string()),
        nickname: Some("Nick".to_string()),
        preferred_username: Some("Pref".to_string()),
        profile: Some("http://profile".to_string()),
        picture: Some("http://pic".to_string()),
        website: Some("http://web".to_string()),
        gender: Some("other".to_string()),
        birthdate: Some("2000-01-01".to_string()),
        zoneinfo: Some("UTC".to_string()),
        locale: Some("en-US".to_string()),
        updated_at: Some(12345),
        ..Default::default()
    };

    let filtered = claims.filter_by_scopes(&["profile".to_string()]);
    assert_eq!(filtered.name, Some("N".to_string()));
    assert_eq!(filtered.given_name, Some("G".to_string()));
    assert_eq!(filtered.family_name, Some("F".to_string()));
    assert_eq!(filtered.middle_name, Some("M".to_string()));
    assert_eq!(filtered.nickname, Some("Nick".to_string()));
    assert_eq!(filtered.preferred_username, Some("Pref".to_string()));
    assert_eq!(filtered.profile, Some("http://profile".to_string()));
    assert_eq!(filtered.picture, Some("http://pic".to_string()));
    assert_eq!(filtered.website, Some("http://web".to_string()));
    assert_eq!(filtered.gender, Some("other".to_string()));
    assert_eq!(filtered.birthdate, Some("2000-01-01".to_string()));
    assert_eq!(filtered.zoneinfo, Some("UTC".to_string()));
    assert_eq!(filtered.locale, Some("en-US".to_string()));
    assert_eq!(filtered.updated_at, Some(12345));
}

#[test]
fn filter_by_scopes_does_not_include_custom_claims() {
    let claims = UserClaims::new("u")
        .with_name("Name")
        .with_custom("role", "\"admin\"".to_string());
    let filtered = claims.filter_by_scopes(&["profile".to_string()]);
    assert_eq!(filtered.name, Some("Name".to_string()));
    assert!(filtered.custom.is_empty(), "custom claims should not pass through scope filtering");
}

#[test]
fn issue_id_token_fields_populated() {
    let (mut provider, at) = provider_with_token(&["openid"], "field-user");
    provider.set_hmac_key(b"key");
    let id_token = issue_id_token(&mut provider, &at, None).unwrap();
    assert_eq!(id_token.claims.iss, "fastmcp");
    assert_eq!(id_token.claims.aud, TEST_CLIENT_ID);
    assert_eq!(id_token.claims.azp, Some(TEST_CLIENT_ID.to_string()));
    assert!(id_token.claims.at_hash.is_some());
    assert!(id_token.claims.auth_time.is_some());
    assert!(id_token.claims.nonce.is_none());
    assert!(id_token.claims.exp > id_token.claims.iat);
}

#[test]
fn base64url_encode_url_safe_characters() {
    // Bytes 0xFB, 0xFF, 0xFE produce +//+ in standard base64,
    // but base64url should use - and _ instead.
    let encoded = base64url_encode(&[0xFB, 0xFF, 0xFE]);
    assert!(
        !encoded.contains('+') && !encoded.contains('/'),
        "base64url must not contain + or /: {encoded}"
    );
    assert!(
        encoded.contains('-') || encoded.contains('_'),
        "base64url should use URL-safe chars: {encoded}"
    );
}

#[test]
fn issue_id_token_with_nonce_round_trips() {
    let (mut provider, at) = provider_with_token(&["openid"], "nonce-rt-user");
    provider.set_hmac_key(b"key");

    let with = issue_id_token(&mut provider, &at, Some("my-nonce")).unwrap();
    assert_eq!(with.claims.nonce, Some("my-nonce".to_string()));

    // Verify the nonce appears in the raw JWT payload
    let parts: Vec<&str> = with.raw.split('.').collect();
    let payload_bytes = base64::engine::general_purpose::URL_SAFE_NO_PAD
        .decode(parts[1])
        .unwrap();
    let payload: serde_json::Value = serde_json::from_slice(&payload_bytes).unwrap();
    assert_eq!(payload["nonce"], "my-nonce");
}

#[test]
fn id_token_signature_is_hmac_of_the_first_two_parts() {
    let (mut provider, at) = provider_with_token(&["openid"], "sig-user");
    provider.set_hmac_key(b"shared-secret");
    let token = issue_id_token(&mut provider, &at, None).unwrap();
    let parts: Vec<&str> = token.raw.split('.').collect();
    let input = format!("{}.{}", parts[0], parts[1]);
    let expected = base64url_encode(&hmac_sha256(b"shared-secret", input.as_bytes()).unwrap());
    assert_eq!(parts[2], expected);
}

#[test]
fn id_token_header_names_default_key_id() {
    let (mut provider, at) = provider_with_token(&["openid"], "hdr-user");
    provider.set_hmac_key(b"k");
    let token = issue_id_token(&mut provider, &at, None).unwrap();
    let header = token.raw.split('.').next().unwrap().to_string();
    let bytes = base64::engine::general_purpose::URL_SAFE_NO_PAD.decode(header).unwrap();
    assert_eq!(bytes, b"{\"alg\":\"HS256\",\"kid\":\"default\",\"typ\":\"JWT\"}".to_vec());
}

#[test]
fn rs256_provider_cannot_be_created() {
    let mut config = OidcProviderConfig::default();
    config.signing_algorithm = SigningAlgorithm::RS256;
    let res: Result<Provider, OidcError> = OidcProvider::new(OAuthServer::with_defaults(), config);
    match res {
        Err(OidcError::SigningError(msg)) => {
            assert_eq!(msg, "RS256 requires the `fastmcp-server/jwt` feature")
        }
        _ => panic!("expected a signing error"),
    }
}

#[test]
fn resolve_user_claims_cases() {
    let scopes = vec!["openid".to_string(), "email".to_string()];
    let none = resolve_user_claims("u", &scopes, None).unwrap();
    assert_eq!(none.sub, "u");
    assert!(none.email.is_none());
    let missing = resolve_user_claims("u", &scopes, Some(None));
    assert!(matches!(missing, Err(OidcError::ClaimsNotFound(s)) if s == "u"));
    let found = resolve_user_claims(
        "u",
        &scopes,
        Some(Some(UserClaims::new("u").with_email("e@x").with_name("hidden"))),
    )
    .unwrap();
    assert_eq!(found.email, Some("e@x".to_string()));
    assert!(found.name.is_none());
}

#[test]
fn cleanup_expired_at_drops_expired_id_tokens() {
    let (mut provider, at) = provider_with_token(&["openid"], "exp-user");
    provider.set_hmac_key(b"k");
    let token = issue_id_token(&mut provider, &at, None).unwrap();
    provider.cleanup_expired_at(token.claims.exp - 1);
    assert!(provider.get_id_token(&at).is_some());
    provider.cleanup_expired_at(token.claims.exp);
    assert!(provider.get_id_token(&at).is_none());
}

#[test]
fn release_is_idempotent_scenario() {
    let claims = UserClaims::new("u").with_name("N").with_email("e");
    let scopes = vec!["profile".to_string()];
    let once = claims.filter_by_scopes(&scopes);
    let twice = once.filter_by_scopes(&scopes);
    assert_eq!(once.name, twice.name);
    assert_eq!(once.email, twice.email);
}

#[test]
fn generate_random_bytes_length() {
    let bytes = generate_random_bytes(16).unwrap();
    assert_eq!(bytes.len(), 16);

    let bytes = generate_random_bytes(64).unwrap();
    assert_eq!(bytes.len(), 64);
}

#[test]
fn generate_random_bytes_unique() {
    let a = generate_random_bytes(32).unwrap();
    let b = generate_random_bytes(32).unwrap();
    // Probabilistically, two random 32-byte sequences should differ
    assert_ne!(a, b);
}

#[test]
fn id_token_header_escapes_key_id() {
    let mut oauth = OAuthServer::new(OAuthServerConfig::default());
    let at = issue_token_via_auth_code(&mut oauth, &["openid"], "kid-user");
    let mut config = OidcProviderConfig::default();
    config.key_id = Some("k\"1\\\n\u{1}".to_string());
    let mut provider: Provider = OidcProvider::new(oauth, config).unwrap();
    provider.set_hmac_key(b"k");
    let token = issue_id_token(&mut provider, &at, None).unwrap();
    let header = token.raw.split('.').next().unwrap().to_string();
    let bytes = base64::engine::general_purpose::URL_SAFE_NO_PAD.decode(header).unwrap();
    assert_eq!(bytes, b"{\"alg\":\"HS256\",\"kid\":\"k\\\"1\\\\\\n\\u0001\",\"typ\":\"JWT\"}".to_vec());
}
