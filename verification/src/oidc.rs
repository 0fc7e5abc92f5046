//! OpenID Connect (OIDC) provider on top of the OAuth server: user claims and
//! their release by scope, the discovery document, ID tokens signed with
//! HMAC-SHA-256, and the userinfo endpoint.
//!
//! JSON is written outside this module: an ID token's claims reach
//! [`OidcProvider::finish_id_token`] as the bytes of their JSON document, and a
//! custom claim is held as the JSON text of its value.
use vstd::prelude::*;
use crate::crypto::{base64url_encode, base64url_of, fill_random, hmac_sha256, hmac_sha256_of, sha256_digest, sha256_of};
use crate::oauth::{
    ServerView, clone_opt_string, clone_strings, error_code_text, live_access_token, opt_str_text, OAuthError,
    OAuthErrorKind, OAuthServer, OAuthToken, TokenView,
};
use crate::store::{text_values, StrMap};
use crate::json::{json_object, json_object_doc, members_view, JsonScalar, ScalarView};
use crate::text::{has_prefix, opt_text, string_push, text_less, texts};
use crate::time::{Duration, Instant};

verus! {

broadcast use vstd::string::group_string_axioms;

// =============================================================================
// Configuration
// =============================================================================

/// Signing algorithm for ID tokens.
#[derive(Debug, Clone, Copy, PartialEq, Eq, Structural)]
pub enum SigningAlgorithm {
    /// HMAC-SHA256 (symmetric).
    HS256,
    /// RSA-SHA256 (asymmetric) - requires RSA key pair.
    RS256,
}

impl SigningAlgorithm {
    /// Returns the algorithm name as used in JWT headers.
    pub fn as_str(&self) -> (s: &'static str)
        ensures
            s@ == match self {
                SigningAlgorithm::HS256 => "HS256"@,
                SigningAlgorithm::RS256 => "RS256"@,
            },
    {
        match self {
            SigningAlgorithm::HS256 => "HS256",
            SigningAlgorithm::RS256 => "RS256",
        }
    }
}

/// Configuration for the OIDC provider.
#[derive(Debug, Clone)]
pub struct OidcProviderConfig {
    /// Issuer identifier (URL) - must match OAuth server issuer.
    pub issuer: String,
    /// ID token lifetime.
    pub id_token_lifetime: Duration,
    /// Signing algorithm for ID tokens.
    pub signing_algorithm: SigningAlgorithm,
    /// Key ID for token signing.
    pub key_id: Option<String>,
    /// RS256 signing key (PEM-encoded private key).
    pub rsa_private_key_pem: Option<Vec<u8>>,
    /// JSON Web Key Set (JWKS), as JSON text, served at `/.well-known/jwks.json`.
    pub jwks: Option<String>,
    /// Supported claims.
    pub supported_claims: Vec<String>,
    /// Supported scopes beyond `openid`.
    pub supported_scopes: Vec<String>,
}

/// The claims that the default configuration supports.
pub open spec fn default_supported_claims() -> Seq<Seq<char>> {
    seq![
        "sub"@,
        "name"@,
        "email"@,
        "email_verified"@,
        "preferred_username"@,
        "picture"@,
        "updated_at"@,
    ]
}

/// The scopes that the default configuration supports.
pub open spec fn default_supported_scopes() -> Seq<Seq<char>> {
    seq!["openid"@, "profile"@, "email"@]
}

impl Default for OidcProviderConfig {
    fn default() -> (c: Self)
        ensures
            c.issuer@ == "fastmcp"@,
            c.id_token_lifetime@ == 3600 * 1_000_000_000,
            c.signing_algorithm == SigningAlgorithm::HS256,
            c.key_id is None,
            c.rsa_private_key_pem is None,
            c.jwks is None,
            texts(c.supported_claims@) == default_supported_claims(),
            texts(c.supported_scopes@) == default_supported_scopes(),
    {
        let supported_claims = vec![
            "sub".to_string(),
            "name".to_string(),
            "email".to_string(),
            "email_verified".to_string(),
            "preferred_username".to_string(),
            "picture".to_string(),
            "updated_at".to_string(),
        ];
        let supported_scopes = vec!["openid".to_string(), "profile".to_string(), "email".to_string()];
        assert(texts(supported_claims@) =~= default_supported_claims());
        assert(texts(supported_scopes@) =~= default_supported_scopes());
        OidcProviderConfig {
            issuer: "fastmcp".to_string(),
            id_token_lifetime: Duration::from_secs(3600),
            signing_algorithm: SigningAlgorithm::HS256,
            key_id: None,
            rsa_private_key_pem: None,
            jwks: None,
            supported_claims,
            supported_scopes,
        }
    }
}

// =============================================================================
// User Claims
// =============================================================================

/// Address claim structure per OpenID Connect spec.
#[derive(Debug, Clone, Default)]
pub struct AddressClaim {
    /// Full formatted address.
    pub formatted: Option<String>,
    /// Street address.
    pub street_address: Option<String>,
    /// City/locality.
    pub locality: Option<String>,
    /// State/region.
    pub region: Option<String>,
    /// Postal/zip code.
    pub postal_code: Option<String>,
    /// Country.
    pub country: Option<String>,
}

/// An address claim as texts.
pub struct AddressView {
    pub formatted: Option<Seq<char>>,
    pub street_address: Option<Seq<char>>,
    pub locality: Option<Seq<char>>,
    pub region: Option<Seq<char>>,
    pub postal_code: Option<Seq<char>>,
    pub country: Option<Seq<char>>,
}

impl View for AddressClaim {
    type V = AddressView;

    open spec fn view(&self) -> AddressView {
        AddressView {
            formatted: opt_text(self.formatted),
            street_address: opt_text(self.street_address),
            locality: opt_text(self.locality),
            region: opt_text(self.region),
            postal_code: opt_text(self.postal_code),
            country: opt_text(self.country),
        }
    }
}

impl AddressClaim {
    /// A copy of this address.
    pub fn duplicate(&self) -> (a: AddressClaim)
        ensures
            a@ == self@,
    {
        AddressClaim {
            formatted: clone_opt_string(&self.formatted),
            street_address: clone_opt_string(&self.street_address),
            locality: clone_opt_string(&self.locality),
            region: clone_opt_string(&self.region),
            postal_code: clone_opt_string(&self.postal_code),
            country: clone_opt_string(&self.country),
        }
    }
}

/// The view of an optional address.
pub open spec fn opt_address(a: Option<AddressClaim>) -> Option<AddressView> {
    match a {
        Some(x) => Some(x@),
        None => None,
    }
}

/// Standard OpenID Connect user claims.
#[derive(Debug, Clone)]
pub struct UserClaims {
    /// Subject identifier (required, unique user ID).
    pub sub: String,
    /// User's full name.
    pub name: Option<String>,
    /// User's given/first name.
    pub given_name: Option<String>,
    /// User's family/last name.
    pub family_name: Option<String>,
    /// User's middle name.
    pub middle_name: Option<String>,
    /// User's nickname/username.
    pub nickname: Option<String>,
    /// User's preferred username.
    pub preferred_username: Option<String>,
    /// URL of user's profile page.
    pub profile: Option<String>,
    /// URL of user's profile picture.
    pub picture: Option<String>,
    /// URL of user's website.
    pub website: Option<String>,
    /// User's gender.
    pub gender: Option<String>,
    /// User's birthday (ISO 8601 date).
    pub birthdate: Option<String>,
    /// User's timezone (IANA timezone string).
    pub zoneinfo: Option<String>,
    /// User's locale (BCP47 language tag).
    pub locale: Option<String>,
    /// Time the user's info was last updated (Unix timestamp).
    pub updated_at: Option<i64>,
    /// User's email address.
    pub email: Option<String>,
    /// Whether the email has been verified.
    pub email_verified: Option<bool>,
    /// User's phone number.
    pub phone_number: Option<String>,
    /// Whether the phone number has been verified.
    pub phone_number_verified: Option<bool>,
    /// User's address.
    pub address: Option<AddressClaim>,
    /// Additional custom claims: each value is the JSON text of the claim.
    pub custom: StrMap<String>,
}

/// User claims as texts.
pub struct ClaimsView {
    pub sub: Seq<char>,
    pub name: Option<Seq<char>>,
    pub given_name: Option<Seq<char>>,
    pub family_name: Option<Seq<char>>,
    pub middle_name: Option<Seq<char>>,
    pub nickname: Option<Seq<char>>,
    pub preferred_username: Option<Seq<char>>,
    pub profile: Option<Seq<char>>,
    pub picture: Option<Seq<char>>,
    pub website: Option<Seq<char>>,
    pub gender: Option<Seq<char>>,
    pub birthdate: Option<Seq<char>>,
    pub zoneinfo: Option<Seq<char>>,
    pub locale: Option<Seq<char>>,
    pub updated_at: Option<i64>,
    pub email: Option<Seq<char>>,
    pub email_verified: Option<bool>,
    pub phone_number: Option<Seq<char>>,
    pub phone_number_verified: Option<bool>,
    pub address: Option<AddressView>,
    pub custom: Map<Seq<char>, Seq<char>>,
}

impl View for UserClaims {
    type V = ClaimsView;

    open spec fn view(&self) -> ClaimsView {
        ClaimsView {
            sub: self.sub@,
            name: opt_text(self.name),
            given_name: opt_text(self.given_name),
            family_name: opt_text(self.family_name),
            middle_name: opt_text(self.middle_name),
            nickname: opt_text(self.nickname),
            preferred_username: opt_text(self.preferred_username),
            profile: opt_text(self.profile),
            picture: opt_text(self.picture),
            website: opt_text(self.website),
            gender: opt_text(self.gender),
            birthdate: opt_text(self.birthdate),
            zoneinfo: opt_text(self.zoneinfo),
            locale: opt_text(self.locale),
            updated_at: self.updated_at,
            email: opt_text(self.email),
            email_verified: self.email_verified,
            phone_number: opt_text(self.phone_number),
            phone_number_verified: self.phone_number_verified,
            address: opt_address(self.address),
            custom: text_values(self.custom@),
        }
    }
}

/// The claims of a user of whom only the subject is known.
pub open spec fn bare_claims(sub: Seq<char>) -> ClaimsView {
    ClaimsView {
        sub,
        name: None,
        given_name: None,
        family_name: None,
        middle_name: None,
        nickname: None,
        preferred_username: None,
        profile: None,
        picture: None,
        website: None,
        gender: None,
        birthdate: None,
        zoneinfo: None,
        locale: None,
        updated_at: None,
        email: None,
        email_verified: None,
        phone_number: None,
        phone_number_verified: None,
        address: None,
        custom: Map::empty(),
    }
}

/// The claims of `c` that the scopes `scopes` release: the subject always;
/// the profile claims with `profile`, the email claims with `email`, the
/// phone claims with `phone`, the address with `address`; never the custom
/// claims.
pub open spec fn released_claims(c: ClaimsView, scopes: Seq<Seq<char>>) -> ClaimsView {
    let profile = scopes.contains("profile"@);
    let email = scopes.contains("email"@);
    let phone = scopes.contains("phone"@);
    let address = scopes.contains("address"@);
    ClaimsView {
        sub: c.sub,
        name: if profile { c.name } else { None },
        given_name: if profile { c.given_name } else { None },
        family_name: if profile { c.family_name } else { None },
        middle_name: if profile { c.middle_name } else { None },
        nickname: if profile { c.nickname } else { None },
        preferred_username: if profile { c.preferred_username } else { None },
        profile: if profile { c.profile } else { None },
        picture: if profile { c.picture } else { None },
        website: if profile { c.website } else { None },
        gender: if profile { c.gender } else { None },
        birthdate: if profile { c.birthdate } else { None },
        zoneinfo: if profile { c.zoneinfo } else { None },
        locale: if profile { c.locale } else { None },
        updated_at: if profile { c.updated_at } else { None },
        email: if email { c.email } else { None },
        email_verified: if email { c.email_verified } else { None },
        phone_number: if phone { c.phone_number } else { None },
        phone_number_verified: if phone { c.phone_number_verified } else { None },
        address: if address { c.address } else { None },
        custom: Map::empty(),
    }
}

/// Whether `text` is among `items`.
pub fn strings_contain(items: &[String], text: &str) -> (r: bool)
    ensures
        r == texts(items@).contains(text@),
{
    let mut i: usize = 0;
    while i < items.len()
        invariant
            i <= items@.len(),
            forall|j: int| 0 <= j < i ==> items@[j]@ != text@,
        decreases items@.len() - i,
    {
        if crate::text::str_eq(items[i].as_str(), text) {
            assert(texts(items@)[i as int] == text@);
            return true;
        }
        i += 1;
    }
    proof {
        if texts(items@).contains(text@) {
            let j = choose|j: int| 0 <= j < texts(items@).len() && texts(items@)[j] == text@;
            assert(items@[j]@ == text@);
        }
    }
    false
}

impl UserClaims {
    /// Creates new user claims with the given subject.
    pub fn new(sub: &str) -> (c: Self)
        ensures
            c@ == bare_claims(sub@),
    {
        let c = UserClaims {
            sub: sub.to_string(),
            name: None,
            given_name: None,
            family_name: None,
            middle_name: None,
            nickname: None,
            preferred_username: None,
            profile: None,
            picture: None,
            website: None,
            gender: None,
            birthdate: None,
            zoneinfo: None,
            locale: None,
            updated_at: None,
            email: None,
            email_verified: None,
            phone_number: None,
            phone_number_verified: None,
            address: None,
            custom: StrMap::new(),
        };
        assert(c@.custom =~= Map::<Seq<char>, Seq<char>>::empty());
        c
    }

    /// Sets the user's full name.
    pub fn with_name(self, name: &str) -> (c: Self)
        ensures
            c@ == (ClaimsView { name: Some(name@), ..self@ }),
    {
        UserClaims { name: Some(name.to_string()), ..self }
    }

    /// Sets the user's email.
    pub fn with_email(self, email: &str) -> (c: Self)
        ensures
            c@ == (ClaimsView { email: Some(email@), ..self@ }),
    {
        UserClaims { email: Some(email.to_string()), ..self }
    }

    /// Sets whether the email is verified.
    pub fn with_email_verified(self, verified: bool) -> (c: Self)
        ensures
            c@ == (ClaimsView { email_verified: Some(verified), ..self@ }),
    {
        UserClaims { email_verified: Some(verified), ..self }
    }

    /// Sets the user's preferred username.
    pub fn with_preferred_username(self, username: &str) -> (c: Self)
        ensures
            c@ == (ClaimsView { preferred_username: Some(username@), ..self@ }),
    {
        UserClaims { preferred_username: Some(username.to_string()), ..self }
    }

    /// Sets the user's profile picture URL.
    pub fn with_picture(self, url: &str) -> (c: Self)
        ensures
            c@ == (ClaimsView { picture: Some(url@), ..self@ }),
    {
        UserClaims { picture: Some(url.to_string()), ..self }
    }

    /// Sets the user's given name.
    pub fn with_given_name(self, name: &str) -> (c: Self)
        ensures
            c@ == (ClaimsView { given_name: Some(name@), ..self@ }),
    {
        UserClaims { given_name: Some(name.to_string()), ..self }
    }

    /// Sets the user's family name.
    pub fn with_family_name(self, name: &str) -> (c: Self)
        ensures
            c@ == (ClaimsView { family_name: Some(name@), ..self@ }),
    {
        UserClaims { family_name: Some(name.to_string()), ..self }
    }

    /// Sets the user's phone number.
    pub fn with_phone_number(self, phone: &str) -> (c: Self)
        ensures
            c@ == (ClaimsView { phone_number: Some(phone@), ..self@ }),
    {
        UserClaims { phone_number: Some(phone.to_string()), ..self }
    }

    /// Sets the updated_at timestamp.
    pub fn with_updated_at(self, timestamp: i64) -> (c: Self)
        ensures
            c@ == (ClaimsView { updated_at: Some(timestamp), ..self@ }),
    {
        UserClaims { updated_at: Some(timestamp), ..self }
    }

    /// Adds a custom claim; `value` is the JSON text of the claim's value.
    pub fn with_custom(self, key: &str, value: String) -> (c: Self)
        ensures
            c@ == (ClaimsView { custom: self@.custom.insert(key@, value@), ..self@ }),
    {
        let mut s = self;
        let ghost before = s.custom@;
        s.custom.insert(key.to_string(), value);
        assert(text_values(s.custom@) =~= text_values(before).insert(key@, value@));
        s
    }

    /// A copy of these claims.
    pub fn duplicate(&self) -> (c: UserClaims)
        ensures
            c@ == self@,
    {
        UserClaims {
            sub: self.sub.clone(),
            name: clone_opt_string(&self.name),
            given_name: clone_opt_string(&self.given_name),
            family_name: clone_opt_string(&self.family_name),
            middle_name: clone_opt_string(&self.middle_name),
            nickname: clone_opt_string(&self.nickname),
            preferred_username: clone_opt_string(&self.preferred_username),
            profile: clone_opt_string(&self.profile),
            picture: clone_opt_string(&self.picture),
            website: clone_opt_string(&self.website),
            gender: clone_opt_string(&self.gender),
            birthdate: clone_opt_string(&self.birthdate),
            zoneinfo: clone_opt_string(&self.zoneinfo),
            locale: clone_opt_string(&self.locale),
            updated_at: self.updated_at,
            email: clone_opt_string(&self.email),
            email_verified: self.email_verified,
            phone_number: clone_opt_string(&self.phone_number),
            phone_number_verified: self.phone_number_verified,
            address: match &self.address {
                Some(a) => Some(a.duplicate()),
                None => None,
            },
            custom: self.custom.duplicate(),
        }
    }

    /// Filters claims based on requested scopes: only the claims that the
    /// scopes release are kept.
    pub fn filter_by_scopes(&self, scopes: &[String]) -> (c: UserClaims)
        ensures
            c@ == released_claims(self@, texts(scopes@)),
    {
        let mut filtered = UserClaims::new(self.sub.as_str());
        if strings_contain(scopes, "profile") {
            filtered.name = clone_opt_string(&self.name);
            filtered.given_name = clone_opt_string(&self.given_name);
            filtered.family_name = clone_opt_string(&self.family_name);
            filtered.middle_name = clone_opt_string(&self.middle_name);
            filtered.nickname = clone_opt_string(&self.nickname);
            filtered.preferred_username = clone_opt_string(&self.preferred_username);
            filtered.profile = clone_opt_string(&self.profile);
            filtered.picture = clone_opt_string(&self.picture);
            filtered.website = clone_opt_string(&self.website);
            filtered.gender = clone_opt_string(&self.gender);
            filtered.birthdate = clone_opt_string(&self.birthdate);
            filtered.zoneinfo = clone_opt_string(&self.zoneinfo);
            filtered.locale = clone_opt_string(&self.locale);
            filtered.updated_at = self.updated_at;
        }
        if strings_contain(scopes, "email") {
            filtered.email = clone_opt_string(&self.email);
            filtered.email_verified = self.email_verified;
        }
        if strings_contain(scopes, "phone") {
            filtered.phone_number = clone_opt_string(&self.phone_number);
            filtered.phone_number_verified = self.phone_number_verified;
        }
        if strings_contain(scopes, "address") {
            filtered.address = match &self.address {
                Some(a) => Some(a.duplicate()),
                None => None,
            };
        }
        filtered
    }
}

impl Default for UserClaims {
    fn default() -> (c: Self)
        ensures
            c@ == bare_claims(Seq::empty()),
    {
        proof {
            reveal_strlit("");
        }
        assert(""@ =~= Seq::<char>::empty());
        UserClaims::new("")
    }
}

} // verus!

verus! {

// =============================================================================
// ID Token
// =============================================================================

/// ID Token claims (JWT payload).
#[derive(Debug, Clone)]
pub struct IdTokenClaims {
    /// Issuer identifier.
    pub iss: String,
    /// Subject identifier.
    pub sub: String,
    /// Audience (client ID).
    pub aud: String,
    /// Expiration time (Unix timestamp).
    pub exp: i64,
    /// Issued at time (Unix timestamp).
    pub iat: i64,
    /// Authentication time (Unix timestamp).
    pub auth_time: Option<i64>,
    /// Nonce from authorization request.
    pub nonce: Option<String>,
    /// Authentication Context Class Reference.
    pub acr: Option<String>,
    /// Authentication Methods References.
    pub amr: Option<Vec<String>>,
    /// Authorized party (client ID that was issued the token).
    pub azp: Option<String>,
    /// Access token hash (for hybrid flows).
    pub at_hash: Option<String>,
    /// Code hash (for hybrid flows).
    pub c_hash: Option<String>,
    /// Additional user claims.
    pub user_claims: UserClaims,
}

/// ID token claims as texts.
pub struct IdClaimsView {
    pub iss: Seq<char>,
    pub sub: Seq<char>,
    pub aud: Seq<char>,
    pub exp: i64,
    pub iat: i64,
    pub auth_time: Option<i64>,
    pub nonce: Option<Seq<char>>,
    pub acr: Option<Seq<char>>,
    pub amr: Option<Seq<Seq<char>>>,
    pub azp: Option<Seq<char>>,
    pub at_hash: Option<Seq<char>>,
    pub c_hash: Option<Seq<char>>,
    pub user_claims: ClaimsView,
}

impl View for IdTokenClaims {
    type V = IdClaimsView;

    open spec fn view(&self) -> IdClaimsView {
        IdClaimsView {
            iss: self.iss@,
            sub: self.sub@,
            aud: self.aud@,
            exp: self.exp,
            iat: self.iat,
            auth_time: self.auth_time,
            nonce: opt_text(self.nonce),
            acr: opt_text(self.acr),
            amr: match self.amr {
                Some(v) => Some(texts(v@)),
                None => None,
            },
            azp: opt_text(self.azp),
            at_hash: opt_text(self.at_hash),
            c_hash: opt_text(self.c_hash),
            user_claims: self.user_claims@,
        }
    }
}

impl IdTokenClaims {
    /// A copy of these claims.
    pub fn duplicate(&self) -> (c: IdTokenClaims)
        ensures
            c@ == self@,
    {
        IdTokenClaims {
            iss: self.iss.clone(),
            sub: self.sub.clone(),
            aud: self.aud.clone(),
            exp: self.exp,
            iat: self.iat,
            auth_time: self.auth_time,
            nonce: clone_opt_string(&self.nonce),
            acr: clone_opt_string(&self.acr),
            amr: match &self.amr {
                Some(v) => Some(clone_strings(v)),
                None => None,
            },
            azp: clone_opt_string(&self.azp),
            at_hash: clone_opt_string(&self.at_hash),
            c_hash: clone_opt_string(&self.c_hash),
            user_claims: self.user_claims.duplicate(),
        }
    }
}

/// A signed ID token.
#[derive(Debug, Clone)]
pub struct IdToken {
    /// The raw JWT string.
    pub raw: String,
    /// The parsed claims.
    pub claims: IdTokenClaims,
}

/// An ID token as texts.
pub struct IdTokenView {
    pub raw: Seq<char>,
    pub claims: IdClaimsView,
}

impl View for IdToken {
    type V = IdTokenView;

    open spec fn view(&self) -> IdTokenView {
        IdTokenView { raw: self.raw@, claims: self.claims@ }
    }
}

impl IdToken {
    /// A copy of this token.
    pub fn duplicate(&self) -> (t: IdToken)
        ensures
            t@ == self@,
    {
        IdToken { raw: self.raw.clone(), claims: self.claims.duplicate() }
    }
}

// =============================================================================
// Discovery Document
// =============================================================================

/// OpenID Connect Discovery Document, served at
/// `/.well-known/openid-configuration`.
#[derive(Debug, Clone)]
pub struct DiscoveryDocument {
    /// Issuer identifier URL.
    pub issuer: String,
    /// Authorization endpoint URL.
    pub authorization_endpoint: String,
    /// Token endpoint URL.
    pub token_endpoint: String,
    /// UserInfo endpoint URL.
    pub userinfo_endpoint: Option<String>,
    /// JWKs URI for public key retrieval.
    pub jwks_uri: Option<String>,
    /// Registration endpoint URL.
    pub registration_endpoint: Option<String>,
    /// Revocation endpoint URL.
    pub revocation_endpoint: Option<String>,
    /// Supported scopes.
    pub scopes_supported: Vec<String>,
    /// Supported response types.
    pub response_types_supported: Vec<String>,
    /// Supported response modes.
    pub response_modes_supported: Option<Vec<String>>,
    /// Supported grant types.
    pub grant_types_supported: Vec<String>,
    /// Supported subject types.
    pub subject_types_supported: Vec<String>,
    /// Supported ID token signing algorithms.
    pub id_token_signing_alg_values_supported: Vec<String>,
    /// Supported token endpoint auth methods.
    pub token_endpoint_auth_methods_supported: Vec<String>,
    /// Supported claims.
    pub claims_supported: Option<Vec<String>>,
    /// Supported code challenge methods.
    pub code_challenge_methods_supported: Option<Vec<String>>,
}

/// The texts of an optional list of strings.
pub open spec fn opt_texts(o: Option<Vec<String>>) -> Option<Seq<Seq<char>>> {
    match o {
        Some(v) => Some(texts(v@)),
        None => None,
    }
}

/// The claims that a fresh discovery document lists.
pub open spec fn discovery_claims() -> Seq<Seq<char>> {
    seq![
        "sub"@,
        "iss"@,
        "aud"@,
        "exp"@,
        "iat"@,
        "name"@,
        "email"@,
        "email_verified"@,
        "preferred_username"@,
        "picture"@,
    ]
}

/// The text `base` followed by `path`.
/// `len` bytes from the operating system's secure random source; a failure
/// of the source is a signing error that says so.
pub fn generate_random_bytes(len: usize) -> (r: Result<Vec<u8>, OidcError>)
    ensures
        r matches Ok(b) ==> b@.len() == len,
        r matches Err(e) ==> (e matches OidcError::SigningError(m) && has_prefix(
            m@,
            "secure random generation failed: "@,
        )),
{
    let mut buf: Vec<u8> = vec![0u8; len];
    match fill_random(&mut buf) {
        Ok(()) => Ok(buf),
        Err(e) => {
            let m = joined("secure random generation failed: ", e.as_str());
            assert(m@.take("secure random generation failed: "@.len() as int) =~= "secure random generation failed: "@);
            Err(OidcError::SigningError(m))
        },
    }
}

fn joined(base: &str, path: &str) -> (s: String)
    ensures
        s@ == base@ + path@,
{
    let mut s = base.to_string();
    s.append(path);
    s
}

impl DiscoveryDocument {
    /// Creates a discovery document with the given issuer, whose endpoints lie
    /// under `base_url`.
    pub fn new(issuer: &str, base_url: &str) -> (d: Self)
        ensures
            d.issuer@ == issuer@,
            d.authorization_endpoint@ == base_url@ + "/authorize"@,
            d.token_endpoint@ == base_url@ + "/token"@,
            opt_text(d.userinfo_endpoint) == Some(base_url@ + "/userinfo"@),
            d.jwks_uri is None,
            d.registration_endpoint is None,
            opt_text(d.revocation_endpoint) == Some(base_url@ + "/revoke"@),
            texts(d.scopes_supported@) == seq!["openid"@, "profile"@, "email"@],
            texts(d.response_types_supported@) == seq!["code"@],
            opt_texts(d.response_modes_supported) == Some(seq!["query"@]),
            texts(d.grant_types_supported@) == seq!["authorization_code"@, "refresh_token"@],
            texts(d.subject_types_supported@) == seq!["public"@],
            texts(d.id_token_signing_alg_values_supported@) == seq!["HS256"@],
            texts(d.token_endpoint_auth_methods_supported@) == seq![
                "client_secret_post"@,
                "client_secret_basic"@,
            ],
            opt_texts(d.claims_supported) == Some(discovery_claims()),
            opt_texts(d.code_challenge_methods_supported) == Some(seq!["plain"@, "S256"@]),
    {
        let scopes = vec!["openid".to_string(), "profile".to_string(), "email".to_string()];
        let response_types = vec!["code".to_string()];
        let modes = vec!["query".to_string()];
        let grants = vec!["authorization_code".to_string(), "refresh_token".to_string()];
        let subjects = vec!["public".to_string()];
        let algs = vec!["HS256".to_string()];
        let methods = vec!["client_secret_post".to_string(), "client_secret_basic".to_string()];
        let claims = vec![
            "sub".to_string(),
            "iss".to_string(),
            "aud".to_string(),
            "exp".to_string(),
            "iat".to_string(),
            "name".to_string(),
            "email".to_string(),
            "email_verified".to_string(),
            "preferred_username".to_string(),
            "picture".to_string(),
        ];
        let challenge_methods = vec!["plain".to_string(), "S256".to_string()];
        assert(texts(scopes@) =~= seq!["openid"@, "profile"@, "email"@]);
        assert(texts(response_types@) =~= seq!["code"@]);
        assert(texts(modes@) =~= seq!["query"@]);
        assert(texts(grants@) =~= seq!["authorization_code"@, "refresh_token"@]);
        assert(texts(subjects@) =~= seq!["public"@]);
        assert(texts(algs@) =~= seq!["HS256"@]);
        assert(texts(methods@) =~= seq!["client_secret_post"@, "client_secret_basic"@]);
        assert(texts(claims@) =~= discovery_claims());
        assert(texts(challenge_methods@) =~= seq!["plain"@, "S256"@]);
        DiscoveryDocument {
            issuer: issuer.to_string(),
            authorization_endpoint: joined(base_url, "/authorize"),
            token_endpoint: joined(base_url, "/token"),
            userinfo_endpoint: Some(joined(base_url, "/userinfo")),
            jwks_uri: None,
            registration_endpoint: None,
            revocation_endpoint: Some(joined(base_url, "/revoke")),
            scopes_supported: scopes,
            response_types_supported: response_types,
            response_modes_supported: Some(modes),
            grant_types_supported: grants,
            subject_types_supported: subjects,
            id_token_signing_alg_values_supported: algs,
            token_endpoint_auth_methods_supported: methods,
            claims_supported: Some(claims),
            code_challenge_methods_supported: Some(challenge_methods),
        }
    }
}

// =============================================================================
// Claims Provider
// =============================================================================

/// A source of user claims, for applications to implement.
pub trait ClaimsProvider {
    /// Retrieves claims for a user by subject identifier; `None` if the user
    /// is not found.
    fn get_claims(&self, subject: &str) -> Option<UserClaims>;
}

/// Simple in-memory claims provider.
#[derive(Debug)]
pub struct InMemoryClaimsProvider {
    claims: StrMap<UserClaims>,
}

impl InMemoryClaimsProvider {
    /// The stored claims by subject.
    pub closed spec fn stored(&self) -> Map<Seq<char>, ClaimsView> {
        self.claims@.map_values(|c: UserClaims| c@)
    }

    /// Creates a new empty claims provider.
    pub fn new() -> (p: Self)
        ensures
            p.stored() == Map::<Seq<char>, ClaimsView>::empty(),
    {
        let p = InMemoryClaimsProvider { claims: StrMap::new() };
        assert(p.stored() =~= Map::<Seq<char>, ClaimsView>::empty());
        p
    }

    /// Adds or updates claims for a user, under the claims' subject.
    pub fn set_claims(&mut self, claims: UserClaims)
        ensures
            final(self).stored() == old(self).stored().insert(claims@.sub, claims@),
    {
        let ghost c = claims@;
        let key = claims.sub.clone();
        self.claims.insert(key, claims);
        assert(self.stored() =~= old(self).stored().insert(c.sub, c));
    }

    /// Removes claims for a user.
    pub fn remove_claims(&mut self, subject: &str)
        ensures
            final(self).stored() == old(self).stored().remove(subject@),
    {
        self.claims.remove(subject);
        assert(self.stored() =~= old(self).stored().remove(subject@));
    }

    /// The claims stored for `subject`.
    pub fn lookup(&self, subject: &str) -> (r: Option<UserClaims>)
        ensures
            match r {
                Some(c) => self.stored().dom().contains(subject@) && c@ == self.stored()[subject@],
                None => !self.stored().dom().contains(subject@),
            },
    {
        match self.claims.get(subject) {
            Some(c) => Some(c.duplicate()),
            None => None,
        }
    }
}

impl Default for InMemoryClaimsProvider {
    fn default() -> (p: Self)
        ensures
            p.stored() == Map::<Seq<char>, ClaimsView>::empty(),
    {
        InMemoryClaimsProvider::new()
    }
}

impl ClaimsProvider for InMemoryClaimsProvider {
    /// The claims stored for `subject`; see [`InMemoryClaimsProvider::lookup`].
    fn get_claims(&self, subject: &str) -> (r: Option<UserClaims>)
        ensures
            match r {
                Some(c) => self.stored().dom().contains(subject@) && c@ == self.stored()[subject@],
                None => !self.stored().dom().contains(subject@),
            },
    {
        self.lookup(subject)
    }
}

} // verus!

verus! {

// =============================================================================
// OIDC Errors
// =============================================================================

/// OIDC-specific errors.
#[derive(Debug, Clone)]
pub enum OidcError {
    /// Underlying OAuth error.
    OAuth(OAuthError),
    /// Missing openid scope.
    MissingOpenIdScope,
    /// User claims not found.
    ClaimsNotFound(String),
    /// Token signing failed.
    SigningError(String),
    /// Invalid ID token.
    InvalidIdToken(String),
}

/// The display text of an OIDC error.
pub open spec fn oidc_error_text(e: OidcError) -> Seq<char> {
    match e {
        OidcError::OAuth(o) => "OAuth error: "@ + error_code_text(o.kind()) + ": "@ + o.msg(),
        OidcError::MissingOpenIdScope => "missing 'openid' scope"@,
        OidcError::ClaimsNotFound(s) => "claims not found for subject: "@ + s@,
        OidcError::SigningError(s) => "signing error: "@ + s@,
        OidcError::InvalidIdToken(s) => "invalid ID token: "@ + s@,
    }
}

impl OidcError {
    /// The display text of this error.
    pub fn to_string(&self) -> (s: String)
        ensures
            s@ == oidc_error_text(*self),
    {
        match self {
            OidcError::OAuth(e) => {
                let mut s = "OAuth error: ".to_string();
                s.append(e.to_string().as_str());
                s
            },
            OidcError::MissingOpenIdScope => "missing 'openid' scope".to_string(),
            OidcError::ClaimsNotFound(x) => joined("claims not found for subject: ", x.as_str()),
            OidcError::SigningError(x) => joined("signing error: ", x.as_str()),
            OidcError::InvalidIdToken(x) => joined("invalid ID token: ", x.as_str()),
        }
    }
}

impl From<OAuthError> for OidcError {
    fn from(err: OAuthError) -> (e: OidcError) {
        OidcError::OAuth(err)
    }
}

impl vstd::std_specs::convert::FromSpecImpl<OAuthError> for OidcError {
    open spec fn obeys_from_spec() -> bool {
        true
    }

    open spec fn from_spec(err: OAuthError) -> OidcError {
        OidcError::OAuth(err)
    }
}

/// A signing error with a fixed message.
fn signing_error(message: &str) -> (e: OidcError)
    ensures
        e matches OidcError::SigningError(s) && s@ == message@,
{
    OidcError::SigningError(message.to_string())
}

// =============================================================================
// Signing keys and configuration checks
// =============================================================================

/// Signing key for ID tokens.
#[derive(Clone, Default)]
pub enum SigningKey {
    /// HMAC-SHA256 secret.
    Hmac(Vec<u8>),
    /// No key configured (will generate on first use).
    #[default]
    Unset,
}

/// The message with which a configuration is refused, if it is: RS256 needs
/// the RSA signer, which this build does not have.
pub open spec fn config_problem(config: OidcProviderConfig) -> Option<Seq<char>> {
    match config.signing_algorithm {
        SigningAlgorithm::HS256 => None,
        SigningAlgorithm::RS256 => Some("RS256 requires the `fastmcp-server/jwt` feature"@),
    }
}

/// Checks that the provider can sign with the configured algorithm.
pub fn validate_oidc_config(config: &OidcProviderConfig) -> (r: Result<(), OidcError>)
    ensures
        match config_problem(*config) {
            None => r is Ok,
            Some(msg) => r matches Err(OidcError::SigningError(s)) && s@ == msg,
        },
{
    match config.signing_algorithm {
        SigningAlgorithm::HS256 => Ok(()),
        SigningAlgorithm::RS256 => Err(signing_error("RS256 requires the `fastmcp-server/jwt` feature")),
    }
}

} // verus!

verus! {

// =============================================================================
// OIDC Provider
// =============================================================================

/// The members of a JWT header: `alg`, `kid` and `typ`, in that (sorted)
/// order.
pub open spec fn jwt_header_members(alg: Seq<char>, typ: Seq<char>, kid: Seq<char>) -> Seq<(Seq<char>, ScalarView)> {
    seq![("alg"@, ScalarView::Text(alg)), ("kid"@, ScalarView::Text(kid)), ("typ"@, ScalarView::Text(typ))]
}

/// The bytes of the JWT header object with the members `alg`, `kid` and
/// `typ`, without white space.
pub open spec fn jwt_header_doc(alg: Seq<char>, typ: Seq<char>, kid: Seq<char>) -> Seq<u8> {
    json_object_doc(jwt_header_members(alg, typ, kid))
}

/// Writes the JWT header object of the three texts.
fn jwt_header_json(alg: &str, typ: &str, kid: &str) -> (b: Vec<u8>)
    ensures
        b@ == jwt_header_doc(alg@, typ@, kid@),
        b@.len() <= isize::MAX,
{
    let members = vec![
        ("alg".to_string(), JsonScalar::Text(alg.to_string())),
        ("kid".to_string(), JsonScalar::Text(kid.to_string())),
        ("typ".to_string(), JsonScalar::Text(typ.to_string())),
    ];
    proof {
        reveal_strlit("alg");
        reveal_strlit("kid");
        reveal_strlit("typ");
        let ms = members_view(members@);
        assert(ms =~= jwt_header_members(alg@, typ@, kid@));
        assert(text_less("alg"@, "kid"@));
        assert(text_less("kid"@, "typ"@));
        assert(text_less("alg"@, "typ"@));
    }
    json_object(&members)
}

/// The compact JWT of a header and a payload document signed with
/// HMAC-SHA-256 under `key`: the base64url texts of header, payload and
/// signature, joined by dots; the signature covers the first two parts.
pub open spec fn signed_jwt(header: Seq<u8>, payload: Seq<u8>, key: Seq<u8>) -> Seq<char> {
    let input = base64url_of(header) + "."@ + base64url_of(payload);
    input + "."@ + base64url_of(hmac_sha256_of(key, vstd::utf8::encode_utf8(input)))
}

/// The access token hash of an ID token: the base64url text of the first
/// half of the SHA-256 digest of the access token.
pub open spec fn at_hash_of(token: Seq<char>) -> Seq<char> {
    base64url_of(sha256_of(vstd::utf8::encode_utf8(token)).take(16))
}

/// `a` plus `b`, held within the range of `i64`.
pub open spec fn sat_add_i64(a: i64, b: nat) -> i64 {
    if a + b > i64::MAX { i64::MAX } else { (a + b) as i64 }
}

/// The claims that [`resolve_user_claims`] gives: where no provider is set
/// (`provided` is `None`), the subject alone; where the provider found the
/// user, their claims; each filtered by the scopes.  `None` where the
/// provider did not find the user.
pub open spec fn user_claims_outcome(
    subject: Seq<char>,
    scopes: Seq<Seq<char>>,
    provided: Option<Option<ClaimsView>>,
) -> Option<ClaimsView> {
    match provided {
        None => Some(released_claims(bare_claims(subject), scopes)),
        Some(None) => None,
        Some(Some(c)) => Some(released_claims(c, scopes)),
    }
}

/// The views of a provider's answer.
pub open spec fn provided_view(p: Option<Option<UserClaims>>) -> Option<Option<ClaimsView>> {
    match p {
        None => None,
        Some(None) => Some(None),
        Some(Some(c)) => Some(Some(c@)),
    }
}

/// The claims released for `subject` under `scopes`, given what the claims
/// provider answered (`None` where no provider is set).
pub fn resolve_user_claims(subject: &str, scopes: &[String], provided: Option<Option<UserClaims>>) -> (r: Result<
    UserClaims,
    OidcError,
>)
    ensures
        match user_claims_outcome(subject@, texts(scopes@), provided_view(provided)) {
            Some(c) => r matches Ok(u) && u@ == c,
            None => r matches Err(OidcError::ClaimsNotFound(s)) && s@ == subject@,
        },
{
    let claims = match provided {
        None => UserClaims::new(subject),
        Some(None) => {
            return Err(OidcError::ClaimsNotFound(subject.to_string()));
        },
        Some(Some(c)) => c,
    };
    Ok(claims.filter_by_scopes(scopes))
}

/// OpenID Connect Provider, extending the OAuth server with identity
/// features.
pub struct OidcProvider<P> {
    oauth: OAuthServer,
    config: OidcProviderConfig,
    signing_key: SigningKey,
    claims_provider: Option<P>,
    id_tokens: StrMap<IdToken>,
}

/// The view of a signing key: the HMAC secret, if one is set.
pub open spec fn key_bytes(k: SigningKey) -> Option<Seq<u8>> {
    match k {
        SigningKey::Hmac(v) => Some(v@),
        SigningKey::Unset => None,
    }
}

/// The ID tokens of `m` that expire after `now_secs`.
pub open spec fn unexpired_id_tokens(m: Map<Seq<char>, IdTokenView>, now_secs: i64) -> Map<Seq<char>, IdTokenView> {
    m.restrict(m.dom().filter(|k: Seq<char>| m[k].claims.exp > now_secs))
}

/// The Unix time in whole seconds of `now`, capped at the largest `i64`.
pub open spec fn unix_secs(now: nat) -> i64 {
    let s = now / 1_000_000_000;
    if s > i64::MAX { i64::MAX } else { s as i64 }
}

/// The Unix time of `now` in whole seconds, capped at the largest `i64`.
fn unix_secs_of(now: Instant) -> (s: i64)
    ensures
        s == unix_secs(now@),
{
    let secs = now.nanos / 1_000_000_000;
    if secs > i64::MAX as u128 {
        i64::MAX
    } else {
        secs as i64
    }
}

impl<P> OidcProvider<P> {
    /// The configuration.
    pub closed spec fn cfg(&self) -> OidcProviderConfig {
        self.config
    }

    /// The underlying OAuth server.
    pub closed spec fn server(&self) -> OAuthServer {
        self.oauth
    }

    /// The HMAC secret, if one is set.
    pub closed spec fn key(&self) -> Option<Seq<u8>> {
        key_bytes(self.signing_key)
    }

    /// The claims provider, if one is set.
    pub closed spec fn provider(&self) -> Option<P> {
        self.claims_provider
    }

    /// The issued ID tokens by access token.
    pub closed spec fn tokens(&self) -> Map<Seq<char>, IdTokenView> {
        self.id_tokens@.map_values(|t: IdToken| t@)
    }

    /// Creates a new OIDC provider with the given OAuth server; refused where
    /// the configuration cannot be served.
    pub fn new(oauth: OAuthServer, config: OidcProviderConfig) -> (r: Result<Self, OidcError>)
        ensures
            match config_problem(config) {
                None => r matches Ok(p) && p.cfg() == config && p.server() == oauth && p.key() is None
                    && p.provider() is None && p.tokens() == Map::<Seq<char>, IdTokenView>::empty(),
                Some(msg) => r matches Err(OidcError::SigningError(s)) && s@ == msg,
            },
    {
        match validate_oidc_config(&config) {
            Ok(()) => {},
            Err(e) => {
                return Err(e);
            },
        }
        let p = OidcProvider {
            oauth,
            config,
            signing_key: SigningKey::Unset,
            claims_provider: None,
            id_tokens: StrMap::new(),
        };
        assert(p.tokens() =~= Map::<Seq<char>, IdTokenView>::empty());
        Ok(p)
    }

    /// Creates a new OIDC provider with default configuration.
    pub fn with_defaults(oauth: OAuthServer) -> (r: Result<Self, OidcError>)
        ensures
            r matches Ok(p) && p.cfg().issuer@ == "fastmcp"@ && p.cfg().signing_algorithm
                == SigningAlgorithm::HS256 && p.server() == oauth && p.key() is None && p.provider() is None
                && p.tokens() == Map::<Seq<char>, IdTokenView>::empty(),
    {
        Self::new(oauth, OidcProviderConfig::default())
    }

    /// Returns the OIDC configuration.
    pub fn config(&self) -> (c: &OidcProviderConfig)
        ensures
            *c == self.cfg(),
    {
        &self.config
    }

    /// Returns a reference to the underlying OAuth server.
    pub fn oauth(&self) -> (s: &OAuthServer)
        ensures
            *s == self.server(),
    {
        &self.oauth
    }

    /// Sets the HMAC signing key.
    pub fn set_hmac_key(&mut self, key: &[u8])
        ensures
            final(self).key() == Some(key@),
            final(self).cfg() == old(self).cfg(),
            final(self).server() == old(self).server(),
            final(self).provider() == old(self).provider(),
            final(self).tokens() == old(self).tokens(),
    {
        let mut v: Vec<u8> = Vec::new();
        let mut i: usize = 0;
        while i < key.len()
            invariant
                i <= key@.len(),
                v@ == key@.take(i as int),
            decreases key@.len() - i,
        {
            v.push(key[i]);
            assert(key@.take(i as int).push(key@[i as int]) =~= key@.take(i + 1));
            i += 1;
        }
        assert(key@.take(key@.len() as int) =~= key@);
        self.signing_key = SigningKey::Hmac(v);
    }

    /// Sets the claims provider.
    pub fn set_claims_provider(&mut self, provider: P)
        ensures
            final(self).provider() == Some(provider),
            final(self).key() == old(self).key(),
            final(self).cfg() == old(self).cfg(),
            final(self).server() == old(self).server(),
            final(self).tokens() == old(self).tokens(),
    {
        self.claims_provider = Some(provider);
    }

    /// The discovery document for endpoints under `base_url`, listing the
    /// configured scopes, claims and signing algorithm; a JWKS URI is
    /// published for RS256 only.
    pub fn discovery_document(&self, base_url: &str) -> (d: DiscoveryDocument)
        ensures
            d.issuer@ == self.cfg().issuer@,
            d.authorization_endpoint@ == base_url@ + "/authorize"@,
            d.token_endpoint@ == base_url@ + "/token"@,
            opt_text(d.userinfo_endpoint) == Some(base_url@ + "/userinfo"@),
            opt_text(d.revocation_endpoint) == Some(base_url@ + "/revoke"@),
            texts(d.scopes_supported@) == texts(self.cfg().supported_scopes@),
            opt_texts(d.claims_supported) == Some(texts(self.cfg().supported_claims@)),
            texts(d.id_token_signing_alg_values_supported@) == seq![
                match self.cfg().signing_algorithm {
                    SigningAlgorithm::HS256 => "HS256"@,
                    SigningAlgorithm::RS256 => "RS256"@,
                },
            ],
            opt_text(d.jwks_uri) == match self.cfg().signing_algorithm {
                SigningAlgorithm::HS256 => None::<Seq<char>>,
                SigningAlgorithm::RS256 => Some(base_url@ + "/.well-known/jwks.json"@),
            },
            texts(d.response_types_supported@) == seq!["code"@],
            texts(d.grant_types_supported@) == seq!["authorization_code"@, "refresh_token"@],
    {
        let mut doc = DiscoveryDocument::new(self.config.issuer.as_str(), base_url);
        doc.scopes_supported = clone_strings(&self.config.supported_scopes);
        doc.claims_supported = Some(clone_strings(&self.config.supported_claims));
        let algs = vec![self.config.signing_algorithm.as_str().to_string()];
        assert(texts(algs@) =~= seq![
            match self.cfg().signing_algorithm {
                SigningAlgorithm::HS256 => "HS256"@,
                SigningAlgorithm::RS256 => "RS256"@,
            },
        ]);
        doc.id_token_signing_alg_values_supported = algs;
        doc.jwks_uri = match self.config.signing_algorithm {
            SigningAlgorithm::HS256 => None,
            SigningAlgorithm::RS256 => Some(joined(base_url, "/.well-known/jwks.json")),
        };
        doc
    }

    /// Returns the configured JSON Web Key Set (JWKS) text, if any.
    pub fn jwks(&self) -> (j: Option<String>)
        ensures
            opt_text(j) == opt_text(self.cfg().jwks),
    {
        clone_opt_string(&self.config.jwks)
    }

    /// Gets the ID token issued for an access token.
    pub fn get_id_token(&self, access_token: &str) -> (r: Option<IdToken>)
        ensures
            match r {
                Some(t) => self.tokens().dom().contains(access_token@) && t@ == self.tokens()[access_token@],
                None => !self.tokens().dom().contains(access_token@),
            },
    {
        match self.id_tokens.get(access_token) {
            Some(t) => Some(t.duplicate()),
            None => None,
        }
    }

    /// Removes the ID tokens whose expiry is not after `now_secs`.
    pub fn cleanup_expired_at(&mut self, now_secs: i64)
        ensures
            final(self).tokens() == unexpired_id_tokens(old(self).tokens(), now_secs),
            final(self).key() == old(self).key(),
            final(self).cfg() == old(self).cfg(),
            final(self).server() == old(self).server(),
            final(self).provider() == old(self).provider(),
    {
        let expired = |t: &IdToken| -> (b: bool)
            ensures
                b == (t.claims.exp <= now_secs),
            { t.claims.exp <= now_secs };
        let keys = self.id_tokens.keys_where(expired, Ghost(|t: IdToken| t.claims.exp <= now_secs));
        self.id_tokens.remove_all(&keys);
        assert(self.tokens() =~= unexpired_id_tokens(old(self).tokens(), now_secs));
    }

    /// Removes expired ID tokens from the cache, by the clock.
    pub fn cleanup_expired(&mut self)
        ensures
            exists|now: i64| final(self).tokens() == #[trigger] unexpired_id_tokens(old(self).tokens(), now),
    {
        let now = unix_secs_of(Instant::now());
        self.cleanup_expired_at(now);
    }
}

} // verus!

verus! {

/// The claims of an ID token for the access token `t`: issued by `issuer` at
/// `now_secs` for the token's subject and client, expiring `lifetime_secs`
/// later (the lifetime capped at the largest `i64`, the sum saturating), with
/// the nonce, the access token hash and the user's claims.
pub open spec fn id_claims_for(
    t: TokenView,
    issuer: Seq<char>,
    lifetime_secs: nat,
    now_secs: i64,
    nonce: Option<Seq<char>>,
    user: ClaimsView,
) -> IdClaimsView {
    IdClaimsView {
        iss: issuer,
        sub: t.subject->0,
        aud: t.client_id,
        exp: sat_add_i64(now_secs, if lifetime_secs > i64::MAX { i64::MAX as nat } else { lifetime_secs }),
        iat: now_secs,
        auth_time: Some(now_secs),
        nonce,
        acr: None,
        amr: None,
        azp: Some(t.client_id),
        at_hash: Some(at_hash_of(t.token)),
        c_hash: None,
        user_claims: user,
    }
}

/// The access token hash of `token`.
fn compute_at_hash(token: &str) -> (h: String)
    ensures
        h@ == at_hash_of(token@),
{
    let digest = sha256_digest(token.as_bytes());
    let mut half: Vec<u8> = Vec::new();
    let mut i: usize = 0;
    while i < 16
        invariant
            digest@.len() == 32,
            i <= 16,
            half@ == digest@.take(i as int),
        decreases 16 - i,
    {
        half.push(digest[i]);
        assert(digest@.take(i as int).push(digest@[i as int]) =~= digest@.take(i + 1));
        i += 1;
    }
    base64url_encode(half.as_slice())
}

/// Whole seconds of `d`, capped at the largest `i64`.
fn secs_i64(d: Duration) -> (s: i64)
    ensures
        s as int == if d@ / 1_000_000_000 > i64::MAX { i64::MAX as int } else { (d@ / 1_000_000_000) as int },
{
    let secs = d.as_secs();
    if secs > i64::MAX as u128 {
        i64::MAX
    } else {
        secs as i64
    }
}

/// `a` plus the non-negative `b`, held within the range of `i64`.
fn saturating_add_i64(a: i64, b: i64) -> (s: i64)
    requires
        b >= 0,
    ensures
        s == sat_add_i64(a, b as nat),
{
    if a > i64::MAX - b {
        i64::MAX
    } else {
        a + b
    }
}

impl<P> OidcProvider<P> {
    /// The ID token claims for `access_token` at time `now_secs`, given what
    /// the claims provider answered for its subject (`None` where no provider
    /// is set).  Refused where the token lacks the `openid` scope or a
    /// subject, or the provider does not know the subject.
    pub fn id_token_claims(
        &self,
        access_token: &OAuthToken,
        nonce: Option<&str>,
        now_secs: i64,
        provided: Option<Option<UserClaims>>,
    ) -> (r: Result<IdTokenClaims, OidcError>)
        ensures
            !access_token@.scopes.contains("openid"@) ==> r matches Err(OidcError::MissingOpenIdScope),
            access_token@.scopes.contains("openid"@) && access_token@.subject is None ==> (r matches Err(
                OidcError::ClaimsNotFound(s),
            ) && s@ == "no subject in access token"@),
            access_token@.scopes.contains("openid"@) && access_token@.subject is Some ==> match user_claims_outcome(
                access_token@.subject->0,
                access_token@.scopes,
                provided_view(provided),
            ) {
                None => r matches Err(OidcError::ClaimsNotFound(s)) && s@ == access_token@.subject->0,
                Some(u) => r matches Ok(c) && c@ == id_claims_for(
                    access_token@,
                    self.cfg().issuer@,
                    self.cfg().id_token_lifetime@ / 1_000_000_000,
                    now_secs,
                    opt_str_text(nonce),
                    u,
                ),
            },
    {
        if !strings_contain(access_token.scopes.as_slice(), "openid") {
            return Err(OidcError::MissingOpenIdScope);
        }
        let subject = match &access_token.subject {
            Some(s) => s,
            None => {
                return Err(OidcError::ClaimsNotFound("no subject in access token".to_string()));
            },
        };
        let user_claims = match resolve_user_claims(subject.as_str(), access_token.scopes.as_slice(), provided) {
            Ok(c) => c,
            Err(e) => {
                return Err(e);
            },
        };
        let lifetime = secs_i64(self.config.id_token_lifetime);
        let exp = saturating_add_i64(now_secs, lifetime);
        let nonce_owned = match nonce {
            Some(n) => Some(n.to_string()),
            None => None,
        };
        Ok(IdTokenClaims {
            iss: self.config.issuer.clone(),
            sub: subject.clone(),
            aud: access_token.client_id.clone(),
            exp,
            iat: now_secs,
            auth_time: Some(now_secs),
            nonce: nonce_owned,
            acr: None,
            amr: None,
            azp: Some(access_token.client_id.clone()),
            at_hash: Some(compute_at_hash(access_token.token.as_str())),
            c_hash: None,
            user_claims,
        })
    }

    /// The signing key, drawing a random 32-byte HMAC secret where none is
    /// set.
    fn get_or_generate_signing_key(&mut self) -> (r: Result<Vec<u8>, OidcError>)
        ensures
            old(self).key() matches Some(k) ==> (r matches Ok(v) && v@ == k) && final(self).key() == old(self).key(),
            old(self).key() is None ==> match r {
                Ok(v) => v@.len() == 32 && final(self).key() == Some(v@),
                Err(e) => (e matches OidcError::SigningError(m) && has_prefix(
                    m@,
                    "secure random generation failed: "@,
                )) && final(self).key() is None,
            },
            final(self).cfg() == old(self).cfg(),
            final(self).server() == old(self).server(),
            final(self).provider() == old(self).provider(),
            final(self).tokens() == old(self).tokens(),
    {
        match &self.signing_key {
            SigningKey::Hmac(k) => {
                let mut v: Vec<u8> = Vec::new();
                let mut i: usize = 0;
                while i < k.len()
                    invariant
                        i <= k@.len(),
                        v@ == k@.take(i as int),
                    decreases k@.len() - i,
                {
                    v.push(k[i]);
                    assert(k@.take(i as int).push(k@[i as int]) =~= k@.take(i + 1));
                    i += 1;
                }
                assert(k@.take(k@.len() as int) =~= k@);
                Ok(v)
            },
            SigningKey::Unset => {
                let buf = match generate_random_bytes(32) {
                    Ok(b) => b,
                    Err(e) => {
                        return Err(e);
                    },
                };
                let mut copy: Vec<u8> = Vec::new();
                let mut i: usize = 0;
                while i < buf.len()
                    invariant
                        i <= buf@.len(),
                        copy@ == buf@.take(i as int),
                    decreases buf@.len() - i,
                {
                    copy.push(buf[i]);
                    assert(buf@.take(i as int).push(buf@[i as int]) =~= buf@.take(i + 1));
                    i += 1;
                }
                assert(buf@.take(buf@.len() as int) =~= buf@);
                self.signing_key = SigningKey::Hmac(copy);
                Ok(buf)
            },
        }
    }
}

} // verus!

verus! {

/// The key ID that the header of an ID token names: the configured one, else
/// `default`.
pub open spec fn header_kid(cfg: OidcProviderConfig) -> Seq<char> {
    match cfg.key_id {
        Some(k) => k@,
        None => "default"@,
    }
}

/// The JWT header document of an HS256 ID token under `cfg`.
pub open spec fn id_token_header(cfg: OidcProviderConfig) -> Seq<u8> {
    jwt_header_doc("HS256"@, "JWT"@, header_kid(cfg))
}

/// Whether `r` is correct ID token claims for the access token `t` at
/// `now_secs` under `cfg`, with or without a claims provider: refused
/// without the `openid` scope or a subject; else the claims of
/// [`id_claims_for`] with the subject's released claims (for a provider, of
/// the claims it found, or refused where it found none).
pub open spec fn id_token_outcome(
    cfg: OidcProviderConfig,
    has_provider: bool,
    t: TokenView,
    nonce: Option<Seq<char>>,
    now_secs: i64,
    r: Result<IdTokenClaims, OidcError>,
) -> bool {
    if !t.scopes.contains("openid"@) {
        r matches Err(OidcError::MissingOpenIdScope)
    } else if t.subject is None {
        r matches Err(OidcError::ClaimsNotFound(x)) && x@ == "no subject in access token"@
    } else if !has_provider {
        r matches Ok(c) && c@ == id_claims_for(
            t,
            cfg.issuer@,
            cfg.id_token_lifetime@ / 1_000_000_000,
            now_secs,
            nonce,
            released_claims(bare_claims(t.subject->0), t.scopes),
        )
    } else {
        match r {
            Ok(c) => exists|u: ClaimsView| c@ == #[trigger] id_claims_for(
                t,
                cfg.issuer@,
                cfg.id_token_lifetime@ / 1_000_000_000,
                now_secs,
                nonce,
                released_claims(u, t.scopes),
            ),
            Err(e) => e matches OidcError::ClaimsNotFound(x) && x@ == t.subject->0,
        }
    }
}

/// Whether `r` is a correct answer to a userinfo request for `access_token`
/// at time `now` on a server in state `s`, with or without a claims provider:
/// the claims of the token's subject that its scopes release (for a provider,
/// of the claims it found), or the refusal that the first failed check
/// gives.
pub open spec fn userinfo_outcome(
    s: ServerView,
    has_provider: bool,
    access_token: Seq<char>,
    now: nat,
    r: Result<UserClaims, OidcError>,
) -> bool {
    match live_access_token(s, access_token, now) {
        None => r matches Err(OidcError::OAuth(e)) && e.kind() == OAuthErrorKind::InvalidGrant && e.msg()
            == "invalid or expired access token"@,
        Some(t) => if !t.scopes.contains("openid"@) {
            r matches Err(OidcError::MissingOpenIdScope)
        } else if t.subject is None {
            r matches Err(OidcError::ClaimsNotFound(x)) && x@ == "no subject in access token"@
        } else if !has_provider {
            r matches Ok(u) && u@ == released_claims(bare_claims(t.subject->0), t.scopes)
        } else {
            match r {
                Ok(u) => exists|c: ClaimsView| u@ == #[trigger] released_claims(c, t.scopes),
                Err(e) => e matches OidcError::ClaimsNotFound(x) && x@ == t.subject->0,
            }
        },
    }
}

impl<P> OidcProvider<P> {
    /// Signs a JWT whose payload is the JSON document `claims_json`.
    ///
    /// With HS256 the header names the configured key ID (`default` where
    /// none is set) and the signature is HMAC-SHA-256 under the signing key,
    /// which is drawn at random where none is set.  RS256 is not available in
    /// this build.
    pub fn sign_id_token(&mut self, claims_json: &[u8]) -> (r: Result<String, OidcError>)
        requires
            claims_json@.len() <= isize::MAX,
        ensures
            old(self).cfg().signing_algorithm == SigningAlgorithm::HS256 && old(self).key() is Some ==> r is Ok,
            old(self).cfg().signing_algorithm == SigningAlgorithm::HS256 ==> !(r matches Err(
                OidcError::SigningError(s),
            ) && s@ == "RS256 requires the `fastmcp-server/jwt` feature"@),
            final(self).cfg() == old(self).cfg(),
            final(self).server() == old(self).server(),
            final(self).provider() == old(self).provider(),
            final(self).tokens() == old(self).tokens(),
            old(self).key() is Some ==> final(self).key() == old(self).key(),
            old(self).cfg().signing_algorithm == SigningAlgorithm::RS256 ==> (r matches Err(
                OidcError::SigningError(s),
            ) && s@ == "RS256 requires the `fastmcp-server/jwt` feature"@),
            r matches Ok(raw) ==> final(self).key() is Some && raw@ == signed_jwt(
                id_token_header(old(self).cfg()),
                claims_json@,
                final(self).key()->0,
            ),
            r is Err ==> r matches Err(OidcError::SigningError(_)),
    {
        match self.config.signing_algorithm {
            SigningAlgorithm::RS256 => {
                return Err(signing_error("RS256 requires the `fastmcp-server/jwt` feature"));
            },
            SigningAlgorithm::HS256 => {},
        }
        let key = match self.get_or_generate_signing_key() {
            Ok(k) => k,
            Err(e) => {
                proof {
                    reveal_strlit("secure random generation failed: ");
                    reveal_strlit("RS256 requires the `fastmcp-server/jwt` feature");
                    if e is SigningError {
                        let m = e->SigningError_0;
                        assert(m@.take(33)[0] == 's');
                        assert(m@[0] == 's');
                    }
                }
                return Err(e);
            },
        };
        let kid = match &self.config.key_id {
            Some(k) => k.as_str(),
            None => "default",
        };
        let header = jwt_header_json("HS256", "JWT", kid);
        proof {
            assert(isize::MAX / 3 * 4 + 3 <= usize::MAX);
        }
        let mut signing_input = base64url_encode(header.as_slice());
        signing_input.append(".");
        signing_input.append(base64url_encode(claims_json).as_str());
        let signature = match hmac_sha256(key.as_slice(), signing_input.as_str().as_bytes()) {
            Some(t) => t,
            None => {
                return Err(signing_error("invalid HMAC key"));
            },
        };
        let mut raw = signing_input;
        raw.append(".");
        raw.append(base64url_encode(signature.as_slice()).as_str());
        Ok(raw)
    }

    /// Signs `claims` (whose JSON document is `claims_json`) into an ID token
    /// and keeps it as the ID token of `access_token`.
    pub fn finish_id_token(&mut self, access_token: &str, claims: IdTokenClaims, claims_json: &[u8]) -> (r: Result<
        IdToken,
        OidcError,
    >)
        requires
            claims_json@.len() <= isize::MAX,
        ensures
            old(self).cfg().signing_algorithm == SigningAlgorithm::HS256 && old(self).key() is Some ==> r is Ok,
            final(self).cfg() == old(self).cfg(),
            final(self).server() == old(self).server(),
            final(self).provider() == old(self).provider(),
            old(self).key() is Some ==> final(self).key() == old(self).key(),
            match r {
                Ok(t) => t.claims@ == claims@ && final(self).key() is Some && t.raw@ == signed_jwt(
                    id_token_header(old(self).cfg()),
                    claims_json@,
                    final(self).key()->0,
                ) && final(self).tokens() == old(self).tokens().insert(access_token@, t@),
                Err(e) => e is SigningError && final(self).tokens() == old(self).tokens(),
            },
            old(self).cfg().signing_algorithm == SigningAlgorithm::RS256 ==> r is Err,
    {
        let raw = match self.sign_id_token(claims_json) {
            Ok(raw) => raw,
            Err(e) => {
                return Err(e);
            },
        };
        let issued = IdToken { raw, claims };
        let ghost before = self.id_tokens@;
        self.id_tokens.insert(access_token.to_string(), issued.duplicate());
        assert(self.tokens() =~= old(self).tokens().insert(access_token@, issued@));
        Ok(issued)
    }
}

impl<P: ClaimsProvider> OidcProvider<P> {
    /// What the claims provider answers for `subject` (`None` where no
    /// provider is set).
    fn ask_provider(&self, subject: &str) -> (r: Option<Option<UserClaims>>)
        ensures
            r is None <==> self.provider() is None,
    {
        match &self.claims_provider {
            None => None,
            Some(p) => Some(p.get_claims(subject)),
        }
    }

    /// The ID token claims for `access_token` at `now_secs`, asking the claims
    /// provider for the subject's claims; see [`Self::id_token_claims`].
    pub fn prepare_id_token_at(&self, access_token: &OAuthToken, nonce: Option<&str>, now_secs: i64) -> (r: Result<
        IdTokenClaims,
        OidcError,
    >)
        ensures
            id_token_outcome(self.cfg(), self.provider() is Some, access_token@, opt_str_text(nonce), now_secs, r),
    {
        let provided = match &access_token.subject {
            Some(s) => self.ask_provider(s.as_str()),
            None => None,
        };
        self.id_token_claims(access_token, nonce, now_secs, provided)
    }

    /// The ID token claims for `access_token` now, by the clock; see
    /// [`Self::prepare_id_token_at`].
    pub fn prepare_id_token(&self, access_token: &OAuthToken, nonce: Option<&str>) -> (r: Result<
        IdTokenClaims,
        OidcError,
    >)
        ensures
            exists|now_secs: i64| #[trigger] id_token_outcome(
                self.cfg(),
                self.provider() is Some,
                access_token@,
                opt_str_text(nonce),
                now_secs,
                r,
            ),
    {
        let now = unix_secs_of(Instant::now());
        self.prepare_id_token_at(access_token, nonce, now)
    }

    /// The claims of `subject` that `scopes` release, from the claims
    /// provider where one is set.
    pub fn get_user_claims(&self, subject: &str, scopes: &[String]) -> (r: Result<UserClaims, OidcError>)
        ensures
            self.provider() is None ==> (r matches Ok(u) && u@ == released_claims(bare_claims(subject@), texts(scopes@))),
            self.provider() is Some ==> match r {
                Ok(u) => exists|c: ClaimsView| u@ == #[trigger] released_claims(c, texts(scopes@)),
                Err(e) => e matches OidcError::ClaimsNotFound(s) && s@ == subject@,
            },
    {
        let provided = self.ask_provider(subject);
        resolve_user_claims(subject, scopes, provided)
    }

    /// Handles a userinfo request at time `now`: the claims of the access
    /// token's subject that its scopes release.  Refused where the token is
    /// not live, lacks the `openid` scope or a subject, or the provider does
    /// not know the subject.
    pub fn userinfo_at(&self, access_token: &str, now: Instant) -> (r: Result<UserClaims, OidcError>)
        ensures
            userinfo_outcome(self.server()@, self.provider() is Some, access_token@, now@, r),
    {
        let validated = match self.oauth.validate_access_token_at(access_token, now) {
            Some(t) => t,
            None => {
                return Err(OidcError::OAuth(OAuthError::InvalidGrant("invalid or expired access token".to_string())));
            },
        };
        if !strings_contain(validated.scopes.as_slice(), "openid") {
            return Err(OidcError::MissingOpenIdScope);
        }
        let subject = match &validated.subject {
            Some(s) => s,
            None => {
                return Err(OidcError::ClaimsNotFound("no subject in access token".to_string()));
            },
        };
        self.get_user_claims(subject.as_str(), validated.scopes.as_slice())
    }

    /// Handles a userinfo request by the clock; see [`Self::userinfo_at`].
    pub fn userinfo(&self, access_token: &str) -> (r: Result<UserClaims, OidcError>)
        ensures
            exists|now: nat| #[trigger] userinfo_outcome(self.server()@, self.provider() is Some, access_token@, now, r),
    {
        self.userinfo_at(access_token, Instant::now())
    }
}

} // verus!

verus! {

/// Releasing claims twice under the same scopes releases nothing more than
/// once.
pub proof fn law_release_idempotent(c: ClaimsView, scopes: Seq<Seq<char>>)
    ensures
        released_claims(released_claims(c, scopes), scopes) == released_claims(c, scopes),
{
}

/// Each scope releases its own claims unchanged, and nothing of them is
/// released without it: `email` releases the email address and whether it
/// is verified, `phone` the phone number and whether it is verified,
/// `address` the postal address, `profile` the profile claims; the subject
/// is always released and custom claims never are.
pub proof fn law_scope_releases_its_claims(c: ClaimsView, scopes: Seq<Seq<char>>)
    ensures
        ({
            let r = released_claims(c, scopes);
            &&& r.sub == c.sub
            &&& r.custom == Map::<Seq<char>, Seq<char>>::empty()
            &&& scopes.contains("email"@) ==> r.email == c.email && r.email_verified == c.email_verified
            &&& !scopes.contains("email"@) ==> r.email is None && r.email_verified is None
            &&& scopes.contains("phone"@) ==> r.phone_number == c.phone_number && r.phone_number_verified
                == c.phone_number_verified
            &&& !scopes.contains("phone"@) ==> r.phone_number is None && r.phone_number_verified is None
            &&& scopes.contains("address"@) ==> r.address == c.address
            &&& !scopes.contains("address"@) ==> r.address is None
            &&& scopes.contains("profile"@) ==> r.name == c.name && r.given_name == c.given_name && r.family_name
                == c.family_name && r.middle_name == c.middle_name && r.nickname == c.nickname
                && r.preferred_username == c.preferred_username && r.profile == c.profile && r.picture
                == c.picture && r.website == c.website && r.gender == c.gender && r.birthdate == c.birthdate
                && r.zoneinfo == c.zoneinfo && r.locale == c.locale && r.updated_at == c.updated_at
            &&& !scopes.contains("profile"@) ==> r.name is None && r.given_name is None && r.family_name is None
                && r.middle_name is None && r.nickname is None && r.preferred_username is None && r.profile is None
                && r.picture is None && r.website is None && r.gender is None && r.birthdate is None
                && r.zoneinfo is None && r.locale is None && r.updated_at is None
        }),
{
}

/// Under all four of `profile`, `email`, `phone` and `address`, every
/// standard claim is released as it is; only the custom claims are dropped.
pub proof fn law_all_scopes_release_standard_claims(c: ClaimsView, scopes: Seq<Seq<char>>)
    requires
        scopes.contains("profile"@),
        scopes.contains("email"@),
        scopes.contains("phone"@),
        scopes.contains("address"@),
    ensures
        released_claims(c, scopes) == (ClaimsView { custom: Map::empty(), ..c }),
{
}

/// Fewer scopes release no more: what a subset of the scopes releases is
/// what it releases of the claims that the larger set released.
pub proof fn law_release_monotone(c: ClaimsView, fewer: Seq<Seq<char>>, more: Seq<Seq<char>>)
    requires
        forall|s: Seq<char>| fewer.contains(s) ==> more.contains(s),
    ensures
        released_claims(released_claims(c, more), fewer) == released_claims(c, fewer),
{
    if fewer.contains("profile"@) {
        assert(more.contains("profile"@));
    }
    if fewer.contains("email"@) {
        assert(more.contains("email"@));
    }
    if fewer.contains("phone"@) {
        assert(more.contains("phone"@));
    }
    if fewer.contains("address"@) {
        assert(more.contains("address"@));
    }
}

/// The `at_hash` of an access token is the base64url text of the left half
/// of its SHA-256 digest: the first sixteen bytes of the digest of the
/// token's UTF-8 bytes.
pub proof fn law_at_hash_left_half(token: Seq<char>)
    ensures
        at_hash_of(token) == base64url_of(sha256_of(vstd::utf8::encode_utf8(token)).subrange(0, 16)),
{
}

/// Under scopes that name none of `profile`, `email`, `phone` and
/// `address`, only the subject is released.
pub proof fn law_openid_alone_releases_subject(c: ClaimsView, scopes: Seq<Seq<char>>)
    requires
        !scopes.contains("profile"@),
        !scopes.contains("email"@),
        !scopes.contains("phone"@),
        !scopes.contains("address"@),
    ensures
        released_claims(c, scopes) == bare_claims(c.sub),
{
}

/// An ID token that was issued for an access token is what the provider
/// gives back for it, until it is cleaned up after its expiry.
pub proof fn law_issued_id_token_is_kept(
    tokens: Map<Seq<char>, IdTokenView>,
    access_token: Seq<char>,
    t: IdTokenView,
    now_secs: i64,
)
    requires
        now_secs < t.claims.exp,
    ensures
        tokens.insert(access_token, t)[access_token] == t,
        unexpired_id_tokens(tokens.insert(access_token, t), now_secs).dom().contains(access_token),
        unexpired_id_tokens(tokens.insert(access_token, t), now_secs)[access_token] == t,
{
}

} // verus!
