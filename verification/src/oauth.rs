//! OAuth 2.0/2.1 authorization server for MCP.
//!
//! - Authorization code flow with PKCE (required, as OAuth 2.1 demands)
//! - Access and refresh token issuance
//! - Token revocation (RFC 7009)
//! - Client registration with redirect URI and scope validation
//!
//! Redirect URIs must match exactly, except that loopback (`localhost`,
//! `127.0.0.1`, `[::1]`) redirects may use any port (RFC 8252).  Tokens are
//! random and URL-safe; authorization codes are single-use and expire.
//!
//! Every operation that reads the clock or draws random tokens has a
//! companion ending in `_at` / `_with` that takes those values as arguments
//! and whose contract pins its result down exactly.
use vstd::prelude::*;
use crate::crypto::{base64url_encode, base64url_of, fill_random, is_base64url_char, sha256_digest, sha256_of};
use crate::store::{StrMap, StrSet};
use crate::text::{
    chars_contain, chars_start_with, decimal_text, has_prefix, hex_upper, hex_upper_char, opt_text,
    str_chars, str_eq, string_from_chars, string_push, texts, usize_to_decimal,
};
use crate::time::{Duration, Instant};
use vstd::string::StringExecFns;
use vstd::string::StringSliceAdditionalSpecFns;

verus! {

broadcast use vstd::string::group_string_axioms;

// =============================================================================
// Text views
// =============================================================================

/// A copy of an optional string.
pub fn clone_opt_string(o: &Option<String>) -> (r: Option<String>)
    ensures
        opt_text(r) == opt_text(*o),
{
    match o {
        Some(s) => Some(s.clone()),
        None => None,
    }
}

/// A copy of a list of strings.
pub fn clone_strings(v: &Vec<String>) -> (r: Vec<String>)
    ensures
        texts(r@) == texts(v@),
{
    let mut r: Vec<String> = Vec::new();
    let mut i: usize = 0;
    while i < v.len()
        invariant
            i <= v@.len(),
            texts(r@) == texts(v@).take(i as int),
        decreases v@.len() - i,
    {
        let c = v[i].clone();
        assert(c == v@[i as int]);
        let ghost before = r@;
        r.push(c);
        assert(r@ == before.push(c));
        assert(texts(before).len() == i);
        assert(before.len() == i);
        assert(r@[i as int] == c);
        assert(r@.len() == i + 1);
        assert(texts(r@)[i as int] == c@);
        assert(texts(v@).take(i + 1)[i as int] == v@[i as int]@);
        assert forall|j: int| 0 <= j < i + 1 implies #[trigger] texts(r@)[j] == texts(v@).take(i + 1)[j] by {
            if j < i {
                assert(texts(before)[j] == texts(v@).take(i as int)[j]);
            }
        }
        assert(texts(r@) =~= texts(v@).take(i + 1));
        i += 1;
    }
    assert(texts(v@).take(v@.len() as int) =~= texts(v@));
    r
}

/// Copies string slices into owned strings.
pub fn strs_to_strings(v: &Vec<&str>) -> (r: Vec<String>)
    ensures
        texts(r@) == v@.map_values(|s: &str| s@),
{
    let mut r: Vec<String> = Vec::new();
    let mut i: usize = 0;
    while i < v.len()
        invariant
            i <= v@.len(),
            texts(r@) == v@.map_values(|s: &str| s@).take(i as int),
        decreases v@.len() - i,
    {
        let c = v[i].to_string();
        assert(c@ == v@[i as int]@);
        let ghost before = r@;
        r.push(c);
        assert(r@ == before.push(c));
        assert(texts(before).len() == i);
        assert(before.len() == i);
        assert(r@[i as int] == c);
        assert(texts(r@)[i as int] == c@);
        assert forall|j: int| 0 <= j < i + 1 implies #[trigger] texts(r@)[j] == v@.map_values(
            |s: &str| s@,
        ).take(i + 1)[j] by {
            if j < i {
                assert(texts(before)[j] == v@.map_values(|s: &str| s@).take(i as int)[j]);
            }
        }
        assert(texts(r@) =~= v@.map_values(|s: &str| s@).take(i + 1));
        i += 1;
    }
    assert(v@.map_values(|s: &str| s@).take(v@.len() as int) =~= v@.map_values(|s: &str| s@));
    r
}

// =============================================================================
// Configuration
// =============================================================================

/// Configuration for the OAuth authorization server.
#[derive(Debug, Clone)]
pub struct OAuthServerConfig {
    /// Issuer identifier (URL) for this authorization server.
    pub issuer: String,
    /// Access token lifetime.
    pub access_token_lifetime: Duration,
    /// Refresh token lifetime.
    pub refresh_token_lifetime: Duration,
    /// Authorization code lifetime (should be short, e.g. 10 minutes).
    pub authorization_code_lifetime: Duration,
    /// Whether to allow public clients (clients without a secret).
    pub allow_public_clients: bool,
    /// Minimum PKCE code verifier length (default: 43).
    pub min_code_verifier_length: usize,
    /// Maximum PKCE code verifier length (default: 128).
    pub max_code_verifier_length: usize,
    /// Token entropy in bytes (default: 32 = 256 bits).
    pub token_entropy_bytes: usize,
}

impl Default for OAuthServerConfig {
    fn default() -> (c: Self)
        ensures
            c.issuer@ == "fastmcp"@,
            c.access_token_lifetime@ == 3600 * 1_000_000_000,
            c.refresh_token_lifetime@ == 86400 * 30 * 1_000_000_000,
            c.authorization_code_lifetime@ == 600 * 1_000_000_000,
            c.allow_public_clients,
            c.min_code_verifier_length == 43,
            c.max_code_verifier_length == 128,
            c.token_entropy_bytes == 32,
    {
        OAuthServerConfig {
            issuer: "fastmcp".to_string(),
            access_token_lifetime: Duration::from_secs(3600),
            refresh_token_lifetime: Duration::from_secs(86400 * 30),
            authorization_code_lifetime: Duration::from_secs(600),
            allow_public_clients: true,
            min_code_verifier_length: 43,
            max_code_verifier_length: 128,
            token_entropy_bytes: 32,
        }
    }
}

// =============================================================================
// Errors
// =============================================================================

/// OAuth error types following RFC 6749.
#[derive(Debug, Clone)]
pub enum OAuthError {
    /// The request is missing a required parameter or is otherwise malformed.
    InvalidRequest(String),
    /// Client authentication failed.
    InvalidClient(String),
    /// The authorization grant or refresh token is invalid.
    InvalidGrant(String),
    /// The client is not authorized to use this grant type.
    UnauthorizedClient(String),
    /// The grant type is not supported.
    UnsupportedGrantType(String),
    /// The requested scope is invalid or unknown.
    InvalidScope(String),
    /// The authorization server encountered an unexpected condition.
    ServerError(String),
    /// The authorization server is temporarily unavailable.
    TemporarilyUnavailable(String),
    /// Access denied by the resource owner.
    AccessDenied(String),
    /// The response type is not supported.
    UnsupportedResponseType(String),
}

/// The kinds of [`OAuthError`], without their descriptions.
#[derive(Debug, Clone, Copy, PartialEq, Eq, Structural)]
pub enum OAuthErrorKind {
    /// `invalid_request`
    InvalidRequest,
    /// `invalid_client`
    InvalidClient,
    /// `invalid_grant`
    InvalidGrant,
    /// `unauthorized_client`
    UnauthorizedClient,
    /// `unsupported_grant_type`
    UnsupportedGrantType,
    /// `invalid_scope`
    InvalidScope,
    /// `server_error`
    ServerError,
    /// `temporarily_unavailable`
    TemporarilyUnavailable,
    /// `access_denied`
    AccessDenied,
    /// `unsupported_response_type`
    UnsupportedResponseType,
}

/// The RFC 6749 error code of a kind.
pub open spec fn error_code_text(k: OAuthErrorKind) -> Seq<char> {
    match k {
        OAuthErrorKind::InvalidRequest => "invalid_request"@,
        OAuthErrorKind::InvalidClient => "invalid_client"@,
        OAuthErrorKind::InvalidGrant => "invalid_grant"@,
        OAuthErrorKind::UnauthorizedClient => "unauthorized_client"@,
        OAuthErrorKind::UnsupportedGrantType => "unsupported_grant_type"@,
        OAuthErrorKind::InvalidScope => "invalid_scope"@,
        OAuthErrorKind::ServerError => "server_error"@,
        OAuthErrorKind::TemporarilyUnavailable => "temporarily_unavailable"@,
        OAuthErrorKind::AccessDenied => "access_denied"@,
        OAuthErrorKind::UnsupportedResponseType => "unsupported_response_type"@,
    }
}

/// An error outcome as a kind and a description text.
pub type ErrorView = (OAuthErrorKind, Seq<char>);

impl OAuthError {
    /// The kind of this error.
    pub open spec fn kind(&self) -> OAuthErrorKind {
        match self {
            OAuthError::InvalidRequest(_) => OAuthErrorKind::InvalidRequest,
            OAuthError::InvalidClient(_) => OAuthErrorKind::InvalidClient,
            OAuthError::InvalidGrant(_) => OAuthErrorKind::InvalidGrant,
            OAuthError::UnauthorizedClient(_) => OAuthErrorKind::UnauthorizedClient,
            OAuthError::UnsupportedGrantType(_) => OAuthErrorKind::UnsupportedGrantType,
            OAuthError::InvalidScope(_) => OAuthErrorKind::InvalidScope,
            OAuthError::ServerError(_) => OAuthErrorKind::ServerError,
            OAuthError::TemporarilyUnavailable(_) => OAuthErrorKind::TemporarilyUnavailable,
            OAuthError::AccessDenied(_) => OAuthErrorKind::AccessDenied,
            OAuthError::UnsupportedResponseType(_) => OAuthErrorKind::UnsupportedResponseType,
        }
    }

    /// The description text of this error.
    pub open spec fn msg(&self) -> Seq<char> {
        match self {
            OAuthError::InvalidRequest(s) => s@,
            OAuthError::InvalidClient(s) => s@,
            OAuthError::InvalidGrant(s) => s@,
            OAuthError::UnauthorizedClient(s) => s@,
            OAuthError::UnsupportedGrantType(s) => s@,
            OAuthError::InvalidScope(s) => s@,
            OAuthError::ServerError(s) => s@,
            OAuthError::TemporarilyUnavailable(s) => s@,
            OAuthError::AccessDenied(s) => s@,
            OAuthError::UnsupportedResponseType(s) => s@,
        }
    }

    /// This error as a kind and description.
    pub open spec fn view_err(&self) -> ErrorView {
        (self.kind(), self.msg())
    }

    /// An error of the given kind with the given description.
    pub fn from_kind(kind: OAuthErrorKind, description: String) -> (e: OAuthError)
        ensures
            e.kind() == kind,
            e.msg() == description@,
    {
        match kind {
            OAuthErrorKind::InvalidRequest => OAuthError::InvalidRequest(description),
            OAuthErrorKind::InvalidClient => OAuthError::InvalidClient(description),
            OAuthErrorKind::InvalidGrant => OAuthError::InvalidGrant(description),
            OAuthErrorKind::UnauthorizedClient => OAuthError::UnauthorizedClient(description),
            OAuthErrorKind::UnsupportedGrantType => OAuthError::UnsupportedGrantType(description),
            OAuthErrorKind::InvalidScope => OAuthError::InvalidScope(description),
            OAuthErrorKind::ServerError => OAuthError::ServerError(description),
            OAuthErrorKind::TemporarilyUnavailable => OAuthError::TemporarilyUnavailable(
                description,
            ),
            OAuthErrorKind::AccessDenied => OAuthError::AccessDenied(description),
            OAuthErrorKind::UnsupportedResponseType => OAuthError::UnsupportedResponseType(
                description,
            ),
        }
    }

    /// Returns the OAuth error code.
    pub fn error_code(&self) -> (code: &'static str)
        ensures
            code@ == error_code_text(self.kind()),
    {
        match self {
            OAuthError::InvalidRequest(_) => "invalid_request",
            OAuthError::InvalidClient(_) => "invalid_client",
            OAuthError::InvalidGrant(_) => "invalid_grant",
            OAuthError::UnauthorizedClient(_) => "unauthorized_client",
            OAuthError::UnsupportedGrantType(_) => "unsupported_grant_type",
            OAuthError::InvalidScope(_) => "invalid_scope",
            OAuthError::ServerError(_) => "server_error",
            OAuthError::TemporarilyUnavailable(_) => "temporarily_unavailable",
            OAuthError::AccessDenied(_) => "access_denied",
            OAuthError::UnsupportedResponseType(_) => "unsupported_response_type",
        }
    }

    /// Returns the error description.
    pub fn description(&self) -> (d: &str)
        ensures
            d@ == self.msg(),
    {
        match self {
            OAuthError::InvalidRequest(s) => s.as_str(),
            OAuthError::InvalidClient(s) => s.as_str(),
            OAuthError::InvalidGrant(s) => s.as_str(),
            OAuthError::UnauthorizedClient(s) => s.as_str(),
            OAuthError::UnsupportedGrantType(s) => s.as_str(),
            OAuthError::InvalidScope(s) => s.as_str(),
            OAuthError::ServerError(s) => s.as_str(),
            OAuthError::TemporarilyUnavailable(s) => s.as_str(),
            OAuthError::AccessDenied(s) => s.as_str(),
            OAuthError::UnsupportedResponseType(s) => s.as_str(),
        }
    }

    /// The display text: the error code, a colon and a space, the description.
    pub fn to_string(&self) -> (s: String)
        ensures
            s@ == error_code_text(self.kind()) + ": "@ + self.msg(),
    {
        let mut s = self.error_code().to_string();
        s.append(": ");
        s.append(self.description());
        s
    }
}

/// Whether `r` is an error of kind `kind` with description `msg`.
pub open spec fn fails_with<T>(r: Result<T, OAuthError>, kind: OAuthErrorKind, msg: Seq<char>) -> bool {
    r matches Err(e) && e.kind() == kind && e.msg() == msg
}

/// An error with a fixed description.
fn err(kind: OAuthErrorKind, description: &str) -> (e: OAuthError)
    ensures
        e.kind() == kind,
        e.msg() == description@,
{
    OAuthError::from_kind(kind, description.to_string())
}

/// The description `<before><middle><after>`.
fn err3(kind: OAuthErrorKind, before: &str, middle: &str, after: &str) -> (e: OAuthError)
    ensures
        e.kind() == kind,
        e.msg() == before@ + middle@ + after@,
{
    let mut s = before.to_string();
    s.append(middle);
    s.append(after);
    OAuthError::from_kind(kind, s)
}

// =============================================================================
// Helper functions
// =============================================================================

/// Whether a byte is left as it is by URL encoding (RFC 3986 unreserved:
/// ASCII letters, digits, `-`, `_`, `.`, `~`).
pub open spec fn is_unreserved(b: u8) -> bool {
    (65 <= b && b <= 90) || (97 <= b && b <= 122) || (48 <= b && b <= 57) || b == 45 || b == 95
        || b == 46 || b == 126
}

/// The URL encoding of one byte: itself where unreserved, else `%` and two
/// upper-case hex digits.
pub open spec fn url_encode_byte(b: u8) -> Seq<char> {
    if is_unreserved(b) {
        seq![(b as u32) as char]
    } else {
        seq!['%', hex_upper_char((b / 16) as nat), hex_upper_char((b % 16) as nat)]
    }
}

/// The URL encoding of a byte string.
pub open spec fn url_encode_bytes(bs: Seq<u8>) -> Seq<char>
    decreases bs.len(),
{
    if bs.len() == 0 {
        Seq::empty()
    } else {
        url_encode_bytes(bs.drop_last()) + url_encode_byte(bs.last())
    }
}

/// URL-encodes a string byte by byte: unreserved ASCII bytes stay, every
/// other byte becomes `%XX`.
pub fn url_encode(s: &str) -> (r: String)
    ensures
        r@ == url_encode_bytes(s.spec_bytes()),
{
    let bytes = s.as_bytes();
    let mut result = String::new();
    let mut i: usize = 0;
    while i < bytes.len()
        invariant
            i <= bytes@.len(),
            bytes@ == s.spec_bytes(),
            result@ == url_encode_bytes(bytes@.take(i as int)),
        decreases bytes@.len() - i,
    {
        let b = bytes[i];
        let ghost before = result@;
        // A-Z, a-z, 0-9, '-', '_', '.', '~'
        if (65 <= b && b <= 90) || (97 <= b && b <= 122) || (48 <= b && b <= 57) || b == 45 || b
            == 95 || b == 46 || b == 126 {
            string_push(&mut result, b as char);
        } else {
            string_push(&mut result, '%');
            string_push(&mut result, hex_upper(b / 16));
            string_push(&mut result, hex_upper(b % 16));
        }
        assert(bytes@.take(i + 1).drop_last() =~= bytes@.take(i as int));
        assert(result@ =~= before + url_encode_byte(b));
        i += 1;
    }
    assert(bytes@.take(bytes@.len() as int) =~= bytes@);
    result
}

/// Compares two strings byte by byte, taking the same time for every pair of
/// strings of one length.
pub fn constant_time_eq(a: &str, b: &str) -> (r: bool)
    ensures
        r == (a@ == b@),
{
    let x = a.as_bytes();
    let y = b.as_bytes();
    proof {
        vstd::utf8::encode_utf8_decode_utf8(a@);
        vstd::utf8::encode_utf8_decode_utf8(b@);
    }
    if x.len() != y.len() {
        return false;
    }
    let mut result: u8 = 0;
    let mut i: usize = 0;
    while i < x.len()
        invariant
            x@ == a.spec_bytes(),
            y@ == b.spec_bytes(),
            x@.len() == y@.len(),
            i <= x@.len(),
            (result == 0) == (forall|j: int| 0 <= j < i ==> x@[j] == y@[j]),
        decreases x@.len() - i,
    {
        let p = x[i];
        let q = y[i];
        let old_result = result;
        result = result | (p ^ q);
        assert((old_result | (p ^ q)) == 0 <==> (old_result == 0 && p == q)) by (bit_vector);
        i += 1;
    }
    if result == 0 {
        assert(x@ =~= y@);
        true
    } else {
        false
    }
}

/// Whether `uri` starts like a loopback HTTP redirect.
pub open spec fn is_localhost_uri(uri: Seq<char>) -> bool {
    has_prefix(uri, "http://localhost"@) || has_prefix(uri, "http://127.0.0.1"@) || has_prefix(
        uri,
        "http://[::1]"@,
    )
}

/// Checks if a URI is a localhost redirect.
pub fn is_localhost_redirect(uri: &str) -> (r: bool)
    ensures
        r == is_localhost_uri(uri@),
{
    let u = str_chars(uri);
    let a = str_chars("http://localhost");
    let b = str_chars("http://127.0.0.1");
    let c = str_chars("http://[::1]");
    chars_start_with(&u, &a) || chars_start_with(&u, &b) || chars_start_with(&u, &c)
}

/// The index of the first `c` in `s`, or the length of `s` where there is none.
pub open spec fn first_index_of(s: Seq<char>, c: char) -> int
    decreases s.len(),
{
    if s.len() == 0 {
        0
    } else if s[0] == c {
        0
    } else {
        1 + first_index_of(s.drop_first(), c)
    }
}

/// The index of the last `c` in `s`, if any.
pub open spec fn last_index_of(s: Seq<char>, c: char) -> Option<int>
    decreases s.len(),
{
    if s.len() == 0 {
        None
    } else if s.last() == c {
        Some(s.len() - 1)
    } else {
        last_index_of(s.drop_last(), c)
    }
}

proof fn lemma_first_index(s: Seq<char>, c: char, i: int)
    requires
        0 <= i <= s.len(),
        forall|j: int| 0 <= j < i ==> s[j] != c,
        i == s.len() || s[i] == c,
    ensures
        first_index_of(s, c) == i,
    decreases i,
{
    if i > 0 {
        lemma_first_index(s.drop_first(), c, i - 1);
    }
}

proof fn lemma_last_index(s: Seq<char>, c: char, i: int)
    requires
        -1 <= i < s.len(),
        forall|j: int| i < j < s.len() ==> s[j] != c,
        i == -1 || s[i] == c,
    ensures
        last_index_of(s, c) == if i == -1 { None } else { Some(i) },
    decreases s.len(),
{
    if s.len() > 0 && i != s.len() - 1 {
        lemma_last_index(s.drop_last(), c, i);
    }
}

/// The index of the first `c` in `s`, or its length.
fn find_first(s: &[char], c: char) -> (r: usize)
    ensures
        r == first_index_of(s@, c),
{
    let mut i: usize = 0;
    while i < s.len()
        invariant
            i <= s@.len(),
            forall|j: int| 0 <= j < i ==> s@[j] != c,
        decreases s@.len() - i,
    {
        if s[i] == c {
            proof {
                lemma_first_index(s@, c, i as int);
            }
            return i;
        }
        i += 1;
    }
    proof {
        lemma_first_index(s@, c, i as int);
    }
    i
}

/// The index of the last `c` in `s`, if any.
fn find_last(s: &[char], c: char) -> (r: Option<usize>)
    ensures
        match r {
            Some(i) => last_index_of(s@, c) == Some(i as int),
            None => last_index_of(s@, c) is None,
        },
{
    let mut i: usize = s.len();
    while i > 0
        invariant
            i <= s@.len(),
            forall|j: int| i <= j < s@.len() ==> s@[j] != c,
        decreases i,
    {
        if s[i - 1] == c {
            proof {
                lemma_last_index(s@, c, i - 1);
            }
            return Some(i - 1);
        }
        i -= 1;
    }
    proof {
        lemma_last_index(s@, c, -1);
    }
    None
}

/// The characters of `s` from `start` up to `end`.
fn sub_chars(s: &[char], start: usize, end: usize) -> (r: Vec<char>)
    requires
        start <= end <= s@.len(),
    ensures
        r@ == s@.subrange(start as int, end as int),
{
    let mut r: Vec<char> = Vec::new();
    let mut i = start;
    while i < end
        invariant
            start <= i <= end,
            end <= s@.len(),
            r@ == s@.subrange(start as int, i as int),
        decreases end - i,
    {
        r.push(s[i]);
        assert(r@ =~= s@.subrange(start as int, i + 1));
        i += 1;
    }
    r
}

/// The authority of an `http://` URI: what follows the scheme up to the
/// first `/`.
pub open spec fn uri_authority(uri: Seq<char>) -> Seq<char> {
    let after = uri.skip(7);
    after.take(first_index_of(after, '/'))
}

/// Whether an `http://` URI carries userinfo: an `@` in its authority.
pub open spec fn uri_has_userinfo(uri: Seq<char>) -> bool {
    has_prefix(uri, "http://"@) && last_index_of(uri_authority(uri), '@') is Some
}

/// Host and path of an `http://` URI: the host is read from the authority
/// after any userinfo (up to the last `@`), with any port dropped.
pub open spec fn uri_host_path(uri: Seq<char>) -> Option<(Seq<char>, Seq<char>)> {
    if !has_prefix(uri, "http://"@) {
        None
    } else {
        let after = uri.skip(7);
        let path_start = first_index_of(after, '/');
        let authority = after.take(path_start);
        let path = after.skip(path_start);
        let host_port = match last_index_of(authority, '@') {
            Some(j) => authority.skip(j + 1),
            None => authority,
        };
        let host = match last_index_of(host_port, ':') {
            Some(i) => host_port.take(i),
            None => host_port,
        };
        Some((host, path))
    }
}

/// Host and path of an `http://` URI, ignoring userinfo and port, and
/// whether it carries userinfo.
fn extract_parts(uri: &[char]) -> (r: Option<(Vec<char>, Vec<char>, bool)>)
    ensures
        match r {
            Some((h, p, u)) => uri_host_path(uri@) == Some((h@, p@)) && u == uri_has_userinfo(uri@),
            None => uri_host_path(uri@) is None && !uri_has_userinfo(uri@),
        },
{
    let scheme = str_chars("http://");
    proof {
        reveal_strlit("http://");
    }
    if !chars_start_with(uri, &scheme) {
        return None;
    }
    let after = sub_chars(uri, 7, uri.len());
    assert(after@ =~= uri@.skip(7));
    let path_start = find_first(&after, '/');
    proof {
        lemma_first_index_bound(after@, '/');
    }
    let authority = sub_chars(&after, 0, path_start);
    let path = sub_chars(&after, path_start, after.len());
    assert(authority@ =~= after@.take(path_start as int));
    assert(path@ =~= after@.skip(path_start as int));
    assert(authority@ == uri_authority(uri@));
    let (host_port, userinfo) = match find_last(&authority, '@') {
        Some(j) => {
            proof {
                lemma_last_index_bound(authority@, '@');
            }
            let hp = sub_chars(&authority, j + 1, authority.len());
            assert(hp@ =~= authority@.skip(j + 1));
            (hp, true)
        },
        None => (authority, false),
    };
    let host = match find_last(&host_port, ':') {
        Some(i) => {
            proof {
                lemma_last_index_bound(host_port@, ':');
            }
            let h = sub_chars(&host_port, 0, i);
            assert(h@ =~= host_port@.take(i as int));
            h
        },
        None => host_port,
    };
    Some((host, path, userinfo))
}

proof fn lemma_first_index_bound(s: Seq<char>, c: char)
    ensures
        0 <= first_index_of(s, c) <= s.len(),
    decreases s.len(),
{
    if s.len() > 0 && s[0] != c {
        lemma_first_index_bound(s.drop_first(), c);
    }
}

proof fn lemma_last_index_bound(s: Seq<char>, c: char)
    ensures
        last_index_of(s, c) matches Some(i) ==> 0 <= i < s.len(),
    decreases s.len(),
{
    if s.len() > 0 && s.last() != c {
        lemma_last_index_bound(s.drop_last(), c);
    }
}

/// `"localhost"` for the loopback host names, `"other"` for every other host.
pub open spec fn normalized_host(host: Seq<char>) -> Seq<char> {
    if host == "localhost"@ || host == "127.0.0.1"@ || host == "[::1]"@ {
        "localhost"@
    } else {
        "other"@
    }
}

/// Normalizes localhost variants.
pub fn normalize_localhost(host: &str) -> (r: &'static str)
    ensures
        r@ == normalized_host(host@),
{
    if str_eq(host, "localhost") || str_eq(host, "127.0.0.1") || str_eq(host, "[::1]") {
        "localhost"
    } else {
        "other"
    }
}

/// Whether two loopback URIs agree up to the port; a URI that carries
/// userinfo never matches.
pub open spec fn localhost_uris_match(a: Seq<char>, b: Seq<char>) -> bool {
    !uri_has_userinfo(a) && !uri_has_userinfo(b) && match (uri_host_path(a), uri_host_path(b)) {
        (Some((host_a, path_a)), Some((host_b, path_b))) => normalized_host(host_a)
            == normalized_host(host_b) && path_a == path_b,
        _ => false,
    }
}

/// Checks if two localhost URIs match (ignoring port).
pub fn localhost_match(a: &str, b: &str) -> (r: bool)
    ensures
        r == localhost_uris_match(a@, b@),
{
    let ca = str_chars(a);
    let cb = str_chars(b);
    match (extract_parts(&ca), extract_parts(&cb)) {
        (Some((host_a, path_a, user_a)), Some((host_b, path_b, user_b))) => {
            if user_a || user_b {
                return false;
            }
            let ha = string_from_chars(&host_a);
            let hb = string_from_chars(&host_b);
            let na = normalize_localhost(ha.as_str());
            let nb = normalize_localhost(hb.as_str());
            let pa = string_from_chars(&path_a);
            let pb = string_from_chars(&path_b);
            str_eq(na, nb) && pa == pb
        },
        _ => false,
    }
}

/// Generates a random token of `bytes` random bytes, base64url-encoded.
///
/// Fails with a server error where the random source fails.
pub fn generate_token(bytes: usize) -> (r: Result<String, OAuthError>)
    requires
        bytes <= usize::MAX / 2,
    ensures
        r matches Ok(t) ==> t@.len() == (4 * bytes + 2) / 3 && (forall|i: int|
            0 <= i < t@.len() ==> is_base64url_char(#[trigger] t@[i])),
        r matches Ok(t) ==> exists|raw: Seq<u8>| raw.len() == bytes && t@ == base64url_of(raw),
        r matches Err(e) ==> e.kind() == OAuthErrorKind::ServerError,
{
    let mut buf: Vec<u8> = vec![0u8; bytes];
    match fill_random(&mut buf) {
        Ok(()) => Ok(base64url_encode(buf.as_slice())),
        Err(e) => Err(err3(
            OAuthErrorKind::ServerError,
            "secure random generation failed: ",
            e.as_str(),
            "",
        )),
    }
}

/// The PKCE S256 challenge of a verifier: base64url of its SHA-256 digest.
pub open spec fn s256_challenge_of(verifier: Seq<char>) -> Seq<char> {
    base64url_of(sha256_of(vstd::utf8::encode_utf8(verifier)))
}

/// Computes the S256 code challenge of a verifier.
pub fn compute_s256_challenge(verifier: &str) -> (c: String)
    ensures
        c@ == s256_challenge_of(verifier@),
{
    let digest = sha256_digest(verifier.as_bytes());
    base64url_encode(digest.as_slice())
}

// =============================================================================
// OAuth client
// =============================================================================

/// OAuth client types.
#[derive(Debug, Clone, Copy, PartialEq, Eq, Structural)]
pub enum ClientType {
    /// Confidential client (has a secret).
    Confidential,
    /// Public client (no secret, e.g. native apps, SPAs).
    Public,
}

/// A registered OAuth client.
#[derive(Debug, Clone)]
pub struct OAuthClient {
    /// Unique client identifier.
    pub client_id: String,
    /// Client secret (None for public clients).
    pub client_secret: Option<String>,
    /// Client type.
    pub client_type: ClientType,
    /// Allowed redirect URIs.
    pub redirect_uris: Vec<String>,
    /// Allowed scopes.
    pub allowed_scopes: StrSet,
    /// Client name (for display).
    pub name: Option<String>,
    /// Client description.
    pub description: Option<String>,
    /// When the client was registered.
    pub registered_at: Instant,
}

/// The contents of an [`OAuthClient`] as texts.
pub struct ClientView {
    pub client_id: Seq<char>,
    pub client_secret: Option<Seq<char>>,
    pub client_type: ClientType,
    pub redirect_uris: Seq<Seq<char>>,
    pub allowed_scopes: Set<Seq<char>>,
    pub name: Option<Seq<char>>,
    pub description: Option<Seq<char>>,
    pub registered_at: nat,
}

impl View for OAuthClient {
    type V = ClientView;

    open spec fn view(&self) -> ClientView {
        ClientView {
            client_id: self.client_id@,
            client_secret: opt_text(self.client_secret),
            client_type: self.client_type,
            redirect_uris: texts(self.redirect_uris@),
            allowed_scopes: self.allowed_scopes@,
            name: opt_text(self.name),
            description: opt_text(self.description),
            registered_at: self.registered_at@,
        }
    }
}

/// Whether `uri` may be used as a redirect by a client with `allowed` URIs:
/// an exact match, or two loopback URIs that agree up to the port.
pub open spec fn redirect_allowed(allowed: Seq<Seq<char>>, uri: Seq<char>) -> bool {
    allowed.contains(uri) || exists|i: int|
        0 <= i < allowed.len() && is_localhost_uri(#[trigger] allowed[i]) && is_localhost_uri(uri)
            && localhost_uris_match(allowed[i], uri)
}

/// Whether every requested scope is allowed.
pub open spec fn scopes_allowed(allowed: Set<Seq<char>>, requested: Seq<Seq<char>>) -> bool {
    forall|i: int| 0 <= i < requested.len() ==> allowed.contains(#[trigger] requested[i])
}

/// Whether a client accepts the presented secret: a matching secret for a
/// client that has one, or no secret for a public client that has none.
pub open spec fn client_authenticates(c: ClientView, secret: Option<Seq<char>>) -> bool {
    match (c.client_secret, secret) {
        (Some(expected), Some(provided)) => expected == provided,
        (None, None) => c.client_type == ClientType::Public,
        _ => false,
    }
}

impl OAuthClient {
    /// A copy of this client.
    pub fn duplicate(&self) -> (c: OAuthClient)
        ensures
            c@ == self@,
    {
        OAuthClient {
            client_id: self.client_id.clone(),
            client_secret: clone_opt_string(&self.client_secret),
            client_type: self.client_type,
            redirect_uris: clone_strings(&self.redirect_uris),
            allowed_scopes: self.allowed_scopes.duplicate(),
            name: clone_opt_string(&self.name),
            description: clone_opt_string(&self.description),
            registered_at: self.registered_at,
        }
    }

    /// Creates a new client builder.
    pub fn builder(client_id: &str) -> (b: OAuthClientBuilder)
        ensures
            b@ == OAuthClientBuilder::fresh_view(client_id@),
    {
        OAuthClientBuilder::new(client_id)
    }

    /// Validates that a redirect URI is allowed for this client.
    pub fn validate_redirect_uri(&self, uri: &str) -> (ok: bool)
        ensures
            ok == redirect_allowed(self@.redirect_uris, uri@),
    {
        let target = uri.to_string();
        let n = self.redirect_uris.len();
        let mut i: usize = 0;
        while i < n
            invariant
                n == self.redirect_uris@.len(),
                i <= n,
                target@ == uri@,
                forall|j: int| 0 <= j < i ==> self.redirect_uris@[j]@ != uri@,
            decreases n - i,
        {
            if self.redirect_uris[i] == target {
                assert(texts(self.redirect_uris@)[i as int] == uri@);
                return true;
            }
            i += 1;
        }
        assert(!texts(self.redirect_uris@).contains(uri@)) by {
            if texts(self.redirect_uris@).contains(uri@) {
                let j = choose|j: int| 0 <= j < n && texts(self.redirect_uris@)[j] == uri@;
                assert(self.redirect_uris@[j]@ == uri@);
            }
        }
        let uri_is_local = is_localhost_redirect(uri);
        let mut k: usize = 0;
        while k < n
            invariant
                n == self.redirect_uris@.len(),
                k <= n,
                uri_is_local == is_localhost_uri(uri@),
                forall|j: int|
                    0 <= j < k ==> !(is_localhost_uri(#[trigger] texts(self.redirect_uris@)[j])
                        && is_localhost_uri(uri@) && localhost_uris_match(
                        texts(self.redirect_uris@)[j],
                        uri@,
                    )),
            decreases n - k,
        {
            let allowed = &self.redirect_uris[k];
            assert(texts(self.redirect_uris@)[k as int] == allowed@);
            if is_localhost_redirect(allowed.as_str()) && uri_is_local {
                if localhost_match(allowed.as_str(), uri) {
                    return true;
                }
            }
            k += 1;
        }
        false
    }

    /// Validates that the requested scopes are allowed for this client.
    pub fn validate_scopes(&self, scopes: &[String]) -> (ok: bool)
        ensures
            ok == scopes_allowed(self@.allowed_scopes, texts(scopes@)),
    {
        let mut i: usize = 0;
        while i < scopes.len()
            invariant
                i <= scopes@.len(),
                forall|j: int| 0 <= j < i ==> self@.allowed_scopes.contains(#[trigger] texts(scopes@)[j]),
            decreases scopes@.len() - i,
        {
            assert(texts(scopes@)[i as int] == scopes@[i as int]@);
            if !self.allowed_scopes.contains(scopes[i].as_str()) {
                return false;
            }
            i += 1;
        }
        true
    }

    /// Authenticates a client by the secret it presents.
    pub fn authenticate(&self, secret: Option<&str>) -> (ok: bool)
        ensures
            ok == client_authenticates(
                self@,
                match secret {
                    Some(s) => Some(s@),
                    None => None,
                },
            ),
    {
        match (&self.client_secret, secret) {
            (Some(expected), Some(provided)) => constant_time_eq(expected.as_str(), provided),
            (None, None) => self.client_type == ClientType::Public,
            _ => false,
        }
    }
}

/// Builder for OAuth clients.
#[derive(Debug)]
pub struct OAuthClientBuilder {
    client_id: String,
    client_credential: Option<String>,
    redirect_uris: Vec<String>,
    allowed_scopes: StrSet,
    name: Option<String>,
    description: Option<String>,
}

/// The contents of an [`OAuthClientBuilder`] as texts.
pub struct BuilderView {
    pub client_id: Seq<char>,
    pub client_credential: Option<Seq<char>>,
    pub redirect_uris: Seq<Seq<char>>,
    pub allowed_scopes: Set<Seq<char>>,
    pub name: Option<Seq<char>>,
    pub description: Option<Seq<char>>,
}

impl View for OAuthClientBuilder {
    type V = BuilderView;

    closed spec fn view(&self) -> BuilderView {
        BuilderView {
            client_id: self.client_id@,
            client_credential: opt_text(self.client_credential),
            redirect_uris: texts(self.redirect_uris@),
            allowed_scopes: self.allowed_scopes@,
            name: opt_text(self.name),
            description: opt_text(self.description),
        }
    }
}

impl OAuthClientBuilder {
    /// The contents of a builder just started for `client_id`.
    pub open spec fn fresh_view(client_id: Seq<char>) -> BuilderView {
        BuilderView {
            client_id,
            client_credential: None,
            redirect_uris: Seq::empty(),
            allowed_scopes: Set::empty(),
            name: None,
            description: None,
        }
    }

    /// Creates a new client builder.
    fn new(client_id: &str) -> (b: Self)
        ensures
            b@ == Self::fresh_view(client_id@),
    {
        let b = OAuthClientBuilder {
            client_id: client_id.to_string(),
            client_credential: None,
            redirect_uris: Vec::new(),
            allowed_scopes: StrSet::new(),
            name: None,
            description: None,
        };
        assert(texts(b.redirect_uris@) =~= Seq::<Seq<char>>::empty());
        b
    }

    /// Sets the client secret (makes this a confidential client).
    pub fn secret(self, credential: &str) -> (b: Self)
        ensures
            b@ == (BuilderView { client_credential: Some(credential@), ..self@ }),
    {
        let mut b = self;
        b.client_credential = Some(credential.to_string());
        b
    }

    /// Adds a redirect URI.
    pub fn redirect_uri(self, uri: &str) -> (b: Self)
        ensures
            b@ == (BuilderView { redirect_uris: self@.redirect_uris.push(uri@), ..self@ }),
    {
        let mut b = self;
        let u = uri.to_string();
        let ghost before = b.redirect_uris@;
        b.redirect_uris.push(u);
        assert(texts(b.redirect_uris@) =~= texts(before).push(uri@)) by {
            assert(b.redirect_uris@ == before.push(u));
        }
        b
    }

    /// Adds several redirect URIs, in order.
    pub fn redirect_uris(self, uris: Vec<&str>) -> (b: Self)
        ensures
            b@ == (BuilderView {
                redirect_uris: self@.redirect_uris + uris@.map_values(|s: &str| s@),
                ..self@
            }),
    {
        let mut b = self;
        let ghost start = b@;
        let mut i: usize = 0;
        while i < uris.len()
            invariant
                i <= uris@.len(),
                b@ == (BuilderView {
                    redirect_uris: start.redirect_uris + uris@.map_values(|s: &str| s@).take(
                        i as int,
                    ),
                    ..start
                }),
            decreases uris@.len() - i,
        {
            b = b.redirect_uri(uris[i]);
            assert(start.redirect_uris + uris@.map_values(|s: &str| s@).take(i + 1) =~= (
            start.redirect_uris + uris@.map_values(|s: &str| s@).take(i as int)).push(uris@[i as int]@));
            i += 1;
        }
        assert(uris@.map_values(|s: &str| s@).take(uris@.len() as int) =~= uris@.map_values(
            |s: &str| s@,
        ));
        b
    }

    /// Adds an allowed scope.
    pub fn scope(self, scope: &str) -> (b: Self)
        ensures
            b@ == (BuilderView { allowed_scopes: self@.allowed_scopes.insert(scope@), ..self@ }),
    {
        let mut b = self;
        b.allowed_scopes.insert(scope.to_string());
        b
    }

    /// Adds several allowed scopes.
    pub fn scopes(self, scopes: Vec<&str>) -> (b: Self)
        ensures
            b@ == (BuilderView {
                allowed_scopes: self@.allowed_scopes + scopes@.map_values(|s: &str| s@).to_set(),
                ..self@
            }),
    {
        let mut b = self;
        let ghost start = b@;
        proof {
            let ms = scopes@.map_values(|s: &str| s@);
            assert(ms.take(0).to_set() =~= Set::<Seq<char>>::empty());
            assert(start.allowed_scopes + ms.take(0).to_set() =~= start.allowed_scopes);
        }
        let mut i: usize = 0;
        while i < scopes.len()
            invariant
                i <= scopes@.len(),
                b@ == (BuilderView {
                    allowed_scopes: start.allowed_scopes + scopes@.map_values(|s: &str| s@).take(
                        i as int,
                    ).to_set(),
                    ..start
                }),
            decreases scopes@.len() - i,
        {
            b = b.scope(scopes[i]);
            proof {
                let ms = scopes@.map_values(|s: &str| s@);
                assert(ms.take(i + 1) =~= ms.take(i as int).push(ms[i as int]));
                ms.take(i as int).lemma_push_to_set_commute(ms[i as int]);
                assert(start.allowed_scopes + ms.take(i + 1).to_set() =~= (start.allowed_scopes
                    + ms.take(i as int).to_set()).insert(scopes@[i as int]@));
            }
            i += 1;
        }
        assert(scopes@.map_values(|s: &str| s@).take(scopes@.len() as int) =~= scopes@.map_values(
            |s: &str| s@,
        ));
        b
    }

    /// Sets the client name.
    pub fn name(self, name: &str) -> (b: Self)
        ensures
            b@ == (BuilderView { name: Some(name@), ..self@ }),
    {
        let mut b = self;
        b.name = Some(name.to_string());
        b
    }

    /// Sets the client description.
    pub fn description(self, description: &str) -> (b: Self)
        ensures
            b@ == (BuilderView { description: Some(description@), ..self@ }),
    {
        let mut b = self;
        b.description = Some(description.to_string());
        b
    }

    /// Builds the client, stamped with the current time.
    ///
    /// Fails where the client ID is empty, or where no redirect URI was added.
    pub fn build(self) -> (r: Result<OAuthClient, OAuthError>)
        ensures
            self@.client_id.len() == 0 ==> fails_with(
                r,
                OAuthErrorKind::InvalidRequest,
                "client_id cannot be empty"@,
            ),
            self@.client_id.len() != 0 && self@.redirect_uris.len() == 0 ==> fails_with(
                r,
                OAuthErrorKind::InvalidRequest,
                "at least one redirect_uri is required"@,
            ),
            self@.client_id.len() != 0 && self@.redirect_uris.len() != 0 ==> (r matches Ok(c) && c@
                == (ClientView {
                client_id: self@.client_id,
                client_secret: self@.client_credential,
                client_type: if self@.client_credential is Some {
                    ClientType::Confidential
                } else {
                    ClientType::Public
                },
                redirect_uris: self@.redirect_uris,
                allowed_scopes: self@.allowed_scopes,
                name: self@.name,
                description: self@.description,
                registered_at: c@.registered_at,
            })),
    {
        if self.client_id.as_str().is_empty() {
            return Err(err(OAuthErrorKind::InvalidRequest, "client_id cannot be empty"));
        }
        if self.redirect_uris.len() == 0 {
            return Err(err(OAuthErrorKind::InvalidRequest, "at least one redirect_uri is required"));
        }
        let client_type = if self.client_credential.is_some() {
            ClientType::Confidential
        } else {
            ClientType::Public
        };
        Ok(OAuthClient {
            client_id: self.client_id,
            client_secret: self.client_credential,
            client_type,
            redirect_uris: self.redirect_uris,
            allowed_scopes: self.allowed_scopes,
            name: self.name,
            description: self.description,
            registered_at: Instant::now(),
        })
    }
}

// =============================================================================
// Authorization codes
// =============================================================================

/// PKCE code challenge method.
#[derive(Debug, Clone, Copy, PartialEq, Eq, Structural)]
pub enum CodeChallengeMethod {
    /// Plain text (not recommended, but allowed for compatibility).
    Plain,
    /// SHA-256 hash (recommended).
    S256,
}

impl CodeChallengeMethod {
    /// Parses a code challenge method from its name.
    pub fn parse(s: &str) -> (m: Option<Self>)
        ensures
            m == (if s@ == "plain"@ {
                Some(CodeChallengeMethod::Plain)
            } else if s@ == "S256"@ {
                Some(CodeChallengeMethod::S256)
            } else {
                None
            }),
    {
        if str_eq(s, "plain") {
            Some(CodeChallengeMethod::Plain)
        } else if str_eq(s, "S256") {
            Some(CodeChallengeMethod::S256)
        } else {
            None
        }
    }

    /// Returns the name of the method.
    pub fn as_str(&self) -> (s: &'static str)
        ensures
            s@ == (match self {
                CodeChallengeMethod::Plain => "plain"@,
                CodeChallengeMethod::S256 => "S256"@,
            }),
    {
        match self {
            CodeChallengeMethod::Plain => "plain",
            CodeChallengeMethod::S256 => "S256",
        }
    }
}

/// Authorization code issued during the authorization flow.
#[derive(Debug, Clone)]
pub struct AuthorizationCode {
    /// The code value.
    pub code: String,
    /// Client ID this code was issued to.
    pub client_id: String,
    /// Redirect URI used in the authorization request.
    pub redirect_uri: String,
    /// Approved scopes.
    pub scopes: Vec<String>,
    /// PKCE code challenge.
    pub code_challenge: String,
    /// PKCE code challenge method.
    pub code_challenge_method: CodeChallengeMethod,
    /// When the code was issued.
    pub issued_at: Instant,
    /// When the code expires.
    pub expires_at: Instant,
    /// Subject (user) this code was issued for.
    pub subject: Option<String>,
    /// State parameter from the authorization request.
    pub state: Option<String>,
}

/// The contents of an [`AuthorizationCode`] as texts and nanosecond counts.
pub struct CodeView {
    pub code: Seq<char>,
    pub client_id: Seq<char>,
    pub redirect_uri: Seq<char>,
    pub scopes: Seq<Seq<char>>,
    pub code_challenge: Seq<char>,
    pub code_challenge_method: CodeChallengeMethod,
    pub issued_at: nat,
    pub expires_at: nat,
    pub subject: Option<Seq<char>>,
    pub state: Option<Seq<char>>,
}

impl View for AuthorizationCode {
    type V = CodeView;

    open spec fn view(&self) -> CodeView {
        CodeView {
            code: self.code@,
            client_id: self.client_id@,
            redirect_uri: self.redirect_uri@,
            scopes: texts(self.scopes@),
            code_challenge: self.code_challenge@,
            code_challenge_method: self.code_challenge_method,
            issued_at: self.issued_at@,
            expires_at: self.expires_at@,
            subject: opt_text(self.subject),
            state: opt_text(self.state),
        }
    }
}

/// Whether a PKCE verifier answers the challenge stored with a code.
pub open spec fn verifier_matches(c: CodeView, verifier: Seq<char>) -> bool {
    match c.code_challenge_method {
        CodeChallengeMethod::Plain => c.code_challenge == verifier,
        CodeChallengeMethod::S256 => c.code_challenge == s256_challenge_of(verifier),
    }
}

impl AuthorizationCode {
    /// A copy of this code.
    pub fn duplicate(&self) -> (c: AuthorizationCode)
        ensures
            c@ == self@,
    {
        AuthorizationCode {
            code: self.code.clone(),
            client_id: self.client_id.clone(),
            redirect_uri: self.redirect_uri.clone(),
            scopes: clone_strings(&self.scopes),
            code_challenge: self.code_challenge.clone(),
            code_challenge_method: self.code_challenge_method,
            issued_at: self.issued_at,
            expires_at: self.expires_at,
            subject: clone_opt_string(&self.subject),
            state: clone_opt_string(&self.state),
        }
    }

    /// Whether this code has expired at time `now`.
    pub fn is_expired_at(&self, now: Instant) -> (b: bool)
        ensures
            b == (now@ >= self.expires_at@),
    {
        now.is_at_or_after(&self.expires_at)
    }

    /// Checks if this code has expired, by the clock.
    pub fn is_expired(&self) -> (b: bool)
        ensures
            exists|now: nat| b == #[trigger] expired_at(self.expires_at@, now),
    {
        let now = Instant::now();
        let b = self.is_expired_at(now);
        assert(b == expired_at(self.expires_at@, now@));
        b
    }

    /// Validates the PKCE code verifier against the stored challenge.
    pub fn validate_code_verifier(&self, verifier: &str) -> (ok: bool)
        ensures
            ok == verifier_matches(self@, verifier@),
    {
        match self.code_challenge_method {
            CodeChallengeMethod::Plain => constant_time_eq(self.code_challenge.as_str(), verifier),
            CodeChallengeMethod::S256 => {
                let computed = compute_s256_challenge(verifier);
                constant_time_eq(self.code_challenge.as_str(), computed.as_str())
            },
        }
    }
}

// =============================================================================
// Tokens
// =============================================================================

/// Token type.
#[derive(Debug, Clone, Copy, PartialEq, Eq, Structural)]
pub enum TokenType {
    /// Bearer token.
    Bearer,
}

impl TokenType {
    /// Returns the name of the token type.
    pub fn as_str(&self) -> (s: &'static str)
        ensures
            s@ == "bearer"@,
    {
        match self {
            TokenType::Bearer => "bearer",
        }
    }
}

/// OAuth token (access or refresh).
#[derive(Debug, Clone)]
pub struct OAuthToken {
    /// Token value.
    pub token: String,
    /// Token type.
    pub token_type: TokenType,
    /// Client ID this token was issued to.
    pub client_id: String,
    /// Approved scopes.
    pub scopes: Vec<String>,
    /// When the token was issued.
    pub issued_at: Instant,
    /// When the token expires.
    pub expires_at: Instant,
    /// Subject (user) this token was issued for.
    pub subject: Option<String>,
    /// Whether this is a refresh token.
    pub is_refresh_token: bool,
}

/// The contents of an [`OAuthToken`] as texts and nanosecond counts.
pub struct TokenView {
    pub token: Seq<char>,
    pub token_type: TokenType,
    pub client_id: Seq<char>,
    pub scopes: Seq<Seq<char>>,
    pub issued_at: nat,
    pub expires_at: nat,
    pub subject: Option<Seq<char>>,
    pub is_refresh_token: bool,
}

impl View for OAuthToken {
    type V = TokenView;

    open spec fn view(&self) -> TokenView {
        TokenView {
            token: self.token@,
            token_type: self.token_type,
            client_id: self.client_id@,
            scopes: texts(self.scopes@),
            issued_at: self.issued_at@,
            expires_at: self.expires_at@,
            subject: opt_text(self.subject),
            is_refresh_token: self.is_refresh_token,
        }
    }
}

/// Whether something that expires at `expires_at` has expired at `now`.
pub open spec fn expired_at(expires_at: nat, now: nat) -> bool {
    now >= expires_at
}

/// Whole seconds from `now` until `expires_at` (zero once passed), capped at
/// the largest `u64`.
pub open spec fn secs_until(expires_at: nat, now: nat) -> u64 {
    let secs = if expires_at >= now { (expires_at - now) / 1_000_000_000 } else { 0 };
    if secs > u64::MAX { u64::MAX } else { secs as u64 }
}

impl OAuthToken {
    /// A copy of this token.
    pub fn duplicate(&self) -> (t: OAuthToken)
        ensures
            t@ == self@,
    {
        OAuthToken {
            token: self.token.clone(),
            token_type: self.token_type,
            client_id: self.client_id.clone(),
            scopes: clone_strings(&self.scopes),
            issued_at: self.issued_at,
            expires_at: self.expires_at,
            subject: clone_opt_string(&self.subject),
            is_refresh_token: self.is_refresh_token,
        }
    }

    /// Whether this token has expired at time `now`.
    pub fn is_expired_at(&self, now: Instant) -> (b: bool)
        ensures
            b == (now@ >= self.expires_at@),
    {
        now.is_at_or_after(&self.expires_at)
    }

    /// Checks if this token has expired, by the clock.
    pub fn is_expired(&self) -> (b: bool)
        ensures
            exists|now: nat| b == #[trigger] expired_at(self.expires_at@, now),
    {
        let now = Instant::now();
        let b = self.is_expired_at(now);
        assert(b == expired_at(self.expires_at@, now@));
        b
    }

    /// The remaining lifetime in whole seconds at time `now`.
    pub fn expires_in_secs_at(&self, now: Instant) -> (secs: u64)
        ensures
            secs == secs_until(self.expires_at@, now@),
    {
        let d = self.expires_at.saturating_duration_since(now);
        let s = d.as_secs();
        if s > u64::MAX as u128 {
            u64::MAX
        } else {
            s as u64
        }
    }

    /// Returns the remaining lifetime in seconds, by the clock.
    pub fn expires_in_secs(&self) -> (secs: u64)
        ensures
            exists|now: nat| secs == #[trigger] secs_until(self.expires_at@, now),
    {
        let now = Instant::now();
        let secs = self.expires_in_secs_at(now);
        assert(secs == secs_until(self.expires_at@, now@));
        secs
    }
}

/// Token response for successful token issuance.
#[derive(Debug, Clone)]
pub struct TokenResponse {
    /// The access token.
    pub access_token: String,
    /// Token type (always "bearer").
    pub token_type: String,
    /// Token lifetime in seconds.
    pub expires_in: u64,
    /// Refresh token (if issued).
    pub refresh_token: Option<String>,
    /// Granted scopes (space-separated).
    pub scope: Option<String>,
}

/// The contents of a [`TokenResponse`] as texts.
pub struct ResponseView {
    pub access_token: Seq<char>,
    pub token_type: Seq<char>,
    pub expires_in: u64,
    pub refresh_token: Option<Seq<char>>,
    pub scope: Option<Seq<char>>,
}

impl View for TokenResponse {
    type V = ResponseView;

    open spec fn view(&self) -> ResponseView {
        ResponseView {
            access_token: self.access_token@,
            token_type: self.token_type@,
            expires_in: self.expires_in,
            refresh_token: opt_text(self.refresh_token),
            scope: opt_text(self.scope),
        }
    }
}

/// The texts of `parts` joined by single spaces.
pub open spec fn space_joined(parts: Seq<Seq<char>>) -> Seq<char>
    decreases parts.len(),
{
    if parts.len() == 0 {
        Seq::empty()
    } else if parts.len() == 1 {
        parts[0]
    } else {
        space_joined(parts.drop_last()) + " "@ + parts.last()
    }
}

/// The `scope` of a token response: the granted scopes joined by spaces, or
/// nothing where none were granted.
pub open spec fn scope_field(scopes: Seq<Seq<char>>) -> Option<Seq<char>> {
    if scopes.len() == 0 {
        None
    } else {
        Some(space_joined(scopes))
    }
}

/// Joins strings with single spaces.
pub fn join_with_spaces(parts: &Vec<String>) -> (s: String)
    ensures
        s@ == space_joined(texts(parts@)),
{
    let mut s = String::new();
    let mut i: usize = 0;
    while i < parts.len()
        invariant
            i <= parts@.len(),
            s@ == space_joined(texts(parts@).take(i as int)),
        decreases parts@.len() - i,
    {
        let ghost prefix = texts(parts@).take(i as int);
        assert(texts(parts@).take(i + 1).drop_last() =~= prefix);
        assert(texts(parts@).take(i + 1).last() == parts@[i as int]@);
        if i > 0 {
            s.append(" ");
        } else {
            assert(s@ =~= Seq::<char>::empty());
        }
        s.append(parts[i].as_str());
        i += 1;
    }
    assert(texts(parts@).take(parts@.len() as int) =~= texts(parts@));
    s
}

/// The `scope` field for granted `scopes`.
fn scope_of(scopes: &Vec<String>) -> (r: Option<String>)
    ensures
        opt_text(r) == scope_field(texts(scopes@)),
{
    if scopes.len() == 0 {
        None
    } else {
        Some(join_with_spaces(scopes))
    }
}

// =============================================================================
// Requests
// =============================================================================

/// Authorization request parameters.
#[derive(Debug, Clone)]
pub struct AuthorizationRequest {
    /// Response type (must be "code" for the authorization code flow).
    pub response_type: String,
    /// Client ID.
    pub client_id: String,
    /// Redirect URI.
    pub redirect_uri: String,
    /// Requested scopes.
    pub scopes: Vec<String>,
    /// State parameter (recommended for CSRF protection).
    pub state: Option<String>,
    /// PKCE code challenge.
    pub code_challenge: String,
    /// PKCE code challenge method.
    pub code_challenge_method: CodeChallengeMethod,
}

/// The contents of an [`AuthorizationRequest`] as texts.
pub struct AuthRequestView {
    pub response_type: Seq<char>,
    pub client_id: Seq<char>,
    pub redirect_uri: Seq<char>,
    pub scopes: Seq<Seq<char>>,
    pub state: Option<Seq<char>>,
    pub code_challenge: Seq<char>,
    pub code_challenge_method: CodeChallengeMethod,
}

impl View for AuthorizationRequest {
    type V = AuthRequestView;

    open spec fn view(&self) -> AuthRequestView {
        AuthRequestView {
            response_type: self.response_type@,
            client_id: self.client_id@,
            redirect_uri: self.redirect_uri@,
            scopes: texts(self.scopes@),
            state: opt_text(self.state),
            code_challenge: self.code_challenge@,
            code_challenge_method: self.code_challenge_method,
        }
    }
}

/// Token request parameters.
#[derive(Debug, Clone)]
pub struct TokenRequest {
    /// Grant type.
    pub grant_type: String,
    /// Authorization code (for the authorization_code grant).
    pub code: Option<String>,
    /// Redirect URI (for the authorization_code grant).
    pub redirect_uri: Option<String>,
    /// Client ID.
    pub client_id: String,
    /// Client secret (for confidential clients).
    pub client_secret: Option<String>,
    /// PKCE code verifier.
    pub code_verifier: Option<String>,
    /// Refresh token (for the refresh_token grant).
    pub refresh_token: Option<String>,
    /// Requested scopes (for the refresh_token grant, a subset of the
    /// original scopes).
    pub scopes: Option<Vec<String>>,
}

/// The contents of a [`TokenRequest`] as texts.
pub struct TokenRequestView {
    pub grant_type: Seq<char>,
    pub code: Option<Seq<char>>,
    pub redirect_uri: Option<Seq<char>>,
    pub client_id: Seq<char>,
    pub client_secret: Option<Seq<char>>,
    pub code_verifier: Option<Seq<char>>,
    pub refresh_token: Option<Seq<char>>,
    pub scopes: Option<Seq<Seq<char>>>,
}

impl View for TokenRequest {
    type V = TokenRequestView;

    open spec fn view(&self) -> TokenRequestView {
        TokenRequestView {
            grant_type: self.grant_type@,
            code: opt_text(self.code),
            redirect_uri: opt_text(self.redirect_uri),
            client_id: self.client_id@,
            client_secret: opt_text(self.client_secret),
            code_verifier: opt_text(self.code_verifier),
            refresh_token: opt_text(self.refresh_token),
            scopes: match self.scopes {
                Some(v) => Some(texts(v@)),
                None => None,
            },
        }
    }
}

// =============================================================================
// Server state and its model
// =============================================================================

/// The registered clients by client ID; every client is kept under its own
/// ID, in registration order.
#[derive(Debug)]
pub struct ClientTable {
    map: StrMap<OAuthClient>,
}

impl View for ClientTable {
    type V = Map<Seq<char>, OAuthClient>;

    closed spec fn view(&self) -> Map<Seq<char>, OAuthClient> {
        self.map@
    }
}

impl ClientTable {
    /// Every client is kept under its own ID.
    #[verifier::type_invariant]
    spec fn keyed(&self) -> bool {
        forall|k: Seq<char>| #[trigger] self.map@.dom().contains(k) ==> self.map@[k].client_id@ == k
    }

    /// The clients with their IDs, in registration order.
    pub closed spec fn entries(&self) -> Seq<(String, OAuthClient)> {
        self.map.entries()
    }

    /// An empty table.
    pub fn new() -> (t: Self)
        ensures
            t@ == Map::<Seq<char>, OAuthClient>::empty(),
    {
        ClientTable { map: StrMap::new() }
    }

    /// The number of clients; the table is the map of its entries, one per
    /// ID, each client under its own ID.
    pub fn len(&self) -> (n: usize)
        ensures
            n == self@.dom().len(),
            n == self.entries().len(),
            crate::store::keys_unique(self.entries()),
            self@ == crate::store::entries_map(self.entries()),
            forall|k: Seq<char>| #[trigger] self@.dom().contains(k) ==> self@[k].client_id@ == k,
    {
        proof {
            use_type_invariant(self);
        }
        self.map.len()
    }

    /// Whether a client is registered under `id`.
    pub fn contains_key(&self, id: &str) -> (b: bool)
        ensures
            b == self@.dom().contains(id@),
    {
        self.map.contains_key(id)
    }

    /// The client registered under `id`, if any; its ID is `id`.
    pub fn get(&self, id: &str) -> (r: Option<&OAuthClient>)
        ensures
            r is None <==> !self@.dom().contains(id@),
            r matches Some(c) ==> *c == self@[id@] && c.client_id@ == id@,
    {
        proof {
            use_type_invariant(self);
        }
        self.map.get(id)
    }

    /// The client of entry `i`.
    pub fn value_at(&self, i: usize) -> (c: &OAuthClient)
        requires
            i < self.entries().len(),
        ensures
            *c == self.entries()[i as int].1,
            *c == self@[self.entries()[i as int].0@],
    {
        self.map.value_at(i)
    }

    /// Registers `client` under its own ID, replacing any client there; a
    /// new ID goes last.
    pub fn insert(&mut self, client: OAuthClient) -> (old_c: Option<OAuthClient>)
        ensures
            final(self)@ == old(self)@.insert(client.client_id@, client),
            old(self)@.dom().contains(client.client_id@) ==> old_c == Some(old(self)@[client.client_id@]),
            !old(self)@.dom().contains(client.client_id@) ==> old_c is None,
    {
        proof {
            use_type_invariant(&*self);
        }
        let mut map: StrMap<OAuthClient> = StrMap::new();
        std::mem::swap(&mut map, &mut self.map);
        let id = client.client_id.clone();
        let prev = map.insert(id, client);
        self.map = map;
        prev
    }

    /// Removes the client registered under `id`.
    pub fn remove(&mut self, id: &str) -> (old_c: Option<OAuthClient>)
        ensures
            final(self)@ == old(self)@.remove(id@),
            old(self)@.dom().contains(id@) ==> old_c == Some(old(self)@[id@]),
            !old(self)@.dom().contains(id@) ==> old_c is None,
    {
        proof {
            use_type_invariant(&*self);
        }
        let mut map: StrMap<OAuthClient> = StrMap::new();
        std::mem::swap(&mut map, &mut self.map);
        let prev = map.remove(id);
        self.map = map;
        prev
    }
}

/// The state of the OAuth server: registered clients, pending authorization
/// codes, live access and refresh tokens, and revoked token values.
#[derive(Debug)]
pub struct OAuthServerState {
    /// Registered clients by client ID.
    pub clients: ClientTable,
    /// Pending authorization codes by code value.
    pub authorization_codes: StrMap<AuthorizationCode>,
    /// Active access tokens by token value.
    pub access_tokens: StrMap<OAuthToken>,
    /// Active refresh tokens by token value.
    pub refresh_tokens: StrMap<OAuthToken>,
    /// Revoked token values.
    pub revoked_tokens: StrSet,
}

/// The server state as maps from texts to the views of their entries.
#[verifier::ext_equal]
pub struct ServerView {
    pub clients: Map<Seq<char>, ClientView>,
    pub codes: Map<Seq<char>, CodeView>,
    pub access: Map<Seq<char>, TokenView>,
    pub refresh: Map<Seq<char>, TokenView>,
    pub revoked: Set<Seq<char>>,
}

impl View for OAuthServerState {
    type V = ServerView;

    open spec fn view(&self) -> ServerView {
        ServerView {
            clients: self.clients@.map_values(|c: OAuthClient| c@),
            codes: self.authorization_codes@.map_values(|c: AuthorizationCode| c@),
            access: self.access_tokens@.map_values(|t: OAuthToken| t@),
            refresh: self.refresh_tokens@.map_values(|t: OAuthToken| t@),
            revoked: self.revoked_tokens@,
        }
    }
}

impl OAuthServerState {
    /// An empty state.
    pub fn new() -> (s: Self)
        ensures
            s@ == empty_server_view(),
    {
        let s = OAuthServerState {
            clients: ClientTable::new(),
            authorization_codes: StrMap::new(),
            access_tokens: StrMap::new(),
            refresh_tokens: StrMap::new(),
            revoked_tokens: StrSet::new(),
        };
        assert(s@ =~= empty_server_view());
        s
    }
}

/// A server with nothing registered, pending, issued or revoked.
pub open spec fn empty_server_view() -> ServerView {
    ServerView {
        clients: Map::empty(),
        codes: Map::empty(),
        access: Map::empty(),
        refresh: Map::empty(),
        revoked: Set::empty(),
    }
}

/// An outcome as a result of views.
pub open spec fn outcome<T, V>(r: Result<T, OAuthError>, f: spec_fn(T) -> V) -> Result<V, ErrorView> {
    match r {
        Ok(t) => Ok(f(t)),
        Err(e) => Err(e.view_err()),
    }
}

/// The point `lifetime` nanoseconds after `now`, capped at the latest
/// representable point.
pub open spec fn expiry(now: nat, lifetime: nat) -> nat {
    if now + lifetime > u128::MAX { u128::MAX as nat } else { now + lifetime }
}

/// `"client '<id>' not found"`
pub open spec fn client_not_found(id: Seq<char>) -> ErrorView {
    (OAuthErrorKind::InvalidClient, "client '"@ + id + "' not found"@)
}

/// The result of registering client `c`.
pub open spec fn register_outcome(s: ServerView, cfg: OAuthServerConfig, c: ClientView) -> (ServerView, Result<(), ErrorView>) {
    if c.client_type == ClientType::Public && !cfg.allow_public_clients {
        (s, Err((OAuthErrorKind::InvalidClient, "public clients are not allowed"@)))
    } else if s.clients.dom().contains(c.client_id) {
        (s, Err((OAuthErrorKind::InvalidClient, "client '"@ + c.client_id + "' already exists"@)))
    } else {
        (ServerView { clients: s.clients.insert(c.client_id, c), ..s }, Ok(()))
    }
}

/// The tokens of `m` issued to client `id`.
pub open spec fn tokens_of_client(m: Map<Seq<char>, TokenView>, id: Seq<char>) -> Set<Seq<char>> {
    m.dom().filter(|k: Seq<char>| m[k].client_id == id)
}

/// The codes of `m` issued to client `id`.
pub open spec fn codes_of_client(m: Map<Seq<char>, CodeView>, id: Seq<char>) -> Set<Seq<char>> {
    m.dom().filter(|k: Seq<char>| m[k].client_id == id)
}

/// The result of unregistering client `id`: the client goes, its tokens are
/// revoked and its pending codes dropped.
pub open spec fn unregister_outcome(s: ServerView, id: Seq<char>) -> (ServerView, Result<(), ErrorView>) {
    if !s.clients.dom().contains(id) {
        (s, Err(client_not_found(id)))
    } else {
        (
            ServerView {
                clients: s.clients.remove(id),
                codes: s.codes.remove_keys(codes_of_client(s.codes, id)),
                access: s.access.remove_keys(tokens_of_client(s.access, id)),
                refresh: s.refresh.remove_keys(tokens_of_client(s.refresh, id)),
                revoked: s.revoked + tokens_of_client(s.access, id) + tokens_of_client(s.refresh, id),
            },
            Ok(()),
        )
    }
}

/// Why an authorization request is turned down, if it is.
pub open spec fn authorize_rejection(s: ServerView, req: AuthRequestView) -> Option<ErrorView> {
    if req.response_type != "code"@ {
        Some((OAuthErrorKind::UnsupportedResponseType, "only 'code' response_type is supported"@))
    } else if !s.clients.dom().contains(req.client_id) {
        Some(client_not_found(req.client_id))
    } else if !redirect_allowed(s.clients[req.client_id].redirect_uris, req.redirect_uri) {
        Some((OAuthErrorKind::InvalidRequest, "invalid redirect_uri"@))
    } else if !scopes_allowed(s.clients[req.client_id].allowed_scopes, req.scopes) {
        Some((OAuthErrorKind::InvalidScope, "requested scope not allowed"@))
    } else if req.code_challenge.len() == 0 {
        Some((OAuthErrorKind::InvalidRequest, "code_challenge is required (PKCE)"@))
    } else {
        None
    }
}

/// The URL-encoding of a text (of its UTF-8 bytes).
pub open spec fn url_encoded(t: Seq<char>) -> Seq<char> {
    url_encode_bytes(vstd::utf8::encode_utf8(t))
}

/// The redirect back to the client: the redirect URI with `code` (and
/// `state`, where there is one) appended as query parameters.
pub open spec fn redirect_with_code(uri: Seq<char>, code: Seq<char>, state: Option<Seq<char>>) -> Seq<char> {
    let sep = if uri.contains('?') { "&"@ } else { "?"@ };
    let base = uri + sep + "code="@ + url_encoded(code);
    match state {
        Some(st) => base + "&state="@ + url_encoded(st),
        None => base,
    }
}

/// The code that an accepted authorization request creates.
pub open spec fn new_code(cfg: OAuthServerConfig, req: AuthRequestView, subject: Option<Seq<char>>, code: Seq<char>, now: nat) -> CodeView {
    CodeView {
        code,
        client_id: req.client_id,
        redirect_uri: req.redirect_uri,
        scopes: req.scopes,
        code_challenge: req.code_challenge,
        code_challenge_method: req.code_challenge_method,
        issued_at: now,
        expires_at: expiry(now, cfg.authorization_code_lifetime@),
        subject,
        state: req.state,
    }
}

/// The result of an authorization request, given the freshly drawn code
/// value (or the failure to draw one) and the time.
pub open spec fn authorize_outcome(
    s: ServerView,
    cfg: OAuthServerConfig,
    req: AuthRequestView,
    subject: Option<Seq<char>>,
    code: Result<Seq<char>, ErrorView>,
    now: nat,
) -> (ServerView, Result<(Seq<char>, Seq<char>), ErrorView>) {
    match authorize_rejection(s, req) {
        Some(e) => (s, Err(e)),
        None => match code {
            Err(e) => (s, Err(e)),
            Ok(c) => (
                ServerView { codes: s.codes.insert(c, new_code(cfg, req, subject, c, now)), ..s },
                Ok((c, redirect_with_code(req.redirect_uri, c, req.state))),
            ),
        },
    }
}

/// A freshly drawn token value: URL-safe text of the configured length, or a
/// server error.
pub open spec fn is_fresh_token(r: Result<Seq<char>, ErrorView>, bytes: nat) -> bool {
    match r {
        Ok(t) => t.len() == (4 * bytes + 2) / 3 && forall|i: int| 0 <= i < t.len() ==> is_base64url_char(#[trigger] t[i]),
        Err(e) => e.0 == OAuthErrorKind::ServerError,
    }
}

/// The view of an optional string slice.
pub open spec fn opt_str_text(o: Option<&str>) -> Option<Seq<char>> {
    match o {
        Some(s) => Some(s@),
        None => None,
    }
}

/// The texts of the requested scopes (`requested`) that were not granted, the
/// first one, if any.
pub open spec fn first_ungranted(requested: Seq<Seq<char>>, granted: Seq<Seq<char>>) -> Option<Seq<char>>
    decreases requested.len(),
{
    if requested.len() == 0 {
        None
    } else if !granted.contains(requested[0]) {
        Some(requested[0])
    } else {
        first_ungranted(requested.drop_first(), granted)
    }
}

/// The two tokens of a code exchange, their storage and the response.
pub open spec fn issue_outcome(
    s: ServerView,
    cfg: OAuthServerConfig,
    client_id: Seq<char>,
    scopes: Seq<Seq<char>>,
    subject: Option<Seq<char>>,
    now: nat,
    access: Result<Seq<char>, ErrorView>,
    refresh: Result<Seq<char>, ErrorView>,
) -> (ServerView, Result<ResponseView, ErrorView>) {
    match access {
        Err(e) => (s, Err(e)),
        Ok(a) => match refresh {
            Err(e) => (s, Err(e)),
            Ok(r) => {
                let at = TokenView {
                    token: a,
                    token_type: TokenType::Bearer,
                    client_id,
                    scopes,
                    issued_at: now,
                    expires_at: expiry(now, cfg.access_token_lifetime@),
                    subject,
                    is_refresh_token: false,
                };
                let rt = TokenView {
                    token: r,
                    token_type: TokenType::Bearer,
                    client_id,
                    scopes,
                    issued_at: now,
                    expires_at: expiry(now, cfg.refresh_token_lifetime@),
                    subject,
                    is_refresh_token: true,
                };
                (
                    ServerView { access: s.access.insert(a, at), refresh: s.refresh.insert(r, rt), ..s },
                    Ok(ResponseView {
                        access_token: a,
                        token_type: "bearer"@,
                        expires_in: secs_until(at.expires_at, now),
                        refresh_token: Some(r),
                        scope: scope_field(scopes),
                    }),
                )
            },
        },
    }
}

/// Whether a client (if confidential) fails to authenticate.
pub open spec fn confidential_auth_fails(c: ClientView, secret: Option<Seq<char>>) -> bool {
    c.client_type == ClientType::Confidential && !client_authenticates(c, secret)
}

/// The result of exchanging an authorization code.  The code is consumed as
/// soon as it is found, whatever happens after.
pub open spec fn code_exchange_outcome(
    s: ServerView,
    cfg: OAuthServerConfig,
    req: TokenRequestView,
    now: nat,
    access: Result<Seq<char>, ErrorView>,
    refresh: Result<Seq<char>, ErrorView>,
) -> (ServerView, Result<ResponseView, ErrorView>) {
    if req.code is None {
        (s, Err((OAuthErrorKind::InvalidRequest, "code is required"@)))
    } else if req.redirect_uri is None {
        (s, Err((OAuthErrorKind::InvalidRequest, "redirect_uri is required"@)))
    } else if req.code_verifier is None {
        (s, Err((OAuthErrorKind::InvalidRequest, "code_verifier is required (PKCE)"@)))
    } else {
        let code = req.code->0;
        let verifier = req.code_verifier->0;
        let vlen = vstd::utf8::encode_utf8(verifier).len();
        if vlen < cfg.min_code_verifier_length || vlen > cfg.max_code_verifier_length {
            (
                s,
                Err((
                    OAuthErrorKind::InvalidRequest,
                    "code_verifier must be between "@ + decimal_text(cfg.min_code_verifier_length as nat)
                        + " and "@ + decimal_text(cfg.max_code_verifier_length as nat) + " characters"@,
                )),
            )
        } else if !s.codes.dom().contains(code) {
            (s, Err((OAuthErrorKind::InvalidGrant, "authorization code not found or already used"@)))
        } else {
            let c = s.codes[code];
            let s1 = ServerView { codes: s.codes.remove(code), ..s };
            if now >= c.expires_at {
                (s1, Err((OAuthErrorKind::InvalidGrant, "authorization code has expired"@)))
            } else if c.client_id != req.client_id {
                (s1, Err((OAuthErrorKind::InvalidGrant, "client_id mismatch"@)))
            } else if c.redirect_uri != req.redirect_uri->0 {
                (s1, Err((OAuthErrorKind::InvalidGrant, "redirect_uri mismatch"@)))
            } else if !verifier_matches(c, verifier) {
                (s1, Err((OAuthErrorKind::InvalidGrant, "code_verifier validation failed"@)))
            } else if !s1.clients.dom().contains(req.client_id) {
                (s1, Err(client_not_found(req.client_id)))
            } else if confidential_auth_fails(s1.clients[req.client_id], req.client_secret) {
                (s1, Err((OAuthErrorKind::InvalidClient, "client authentication failed"@)))
            } else {
                issue_outcome(s1, cfg, c.client_id, c.scopes, c.subject, now, access, refresh)
            }
        }
    }
}

/// The result of a refresh token grant: a new access token (the refresh token
/// is kept), with the granted scopes or the requested subset of them.
pub open spec fn refresh_outcome(
    s: ServerView,
    cfg: OAuthServerConfig,
    req: TokenRequestView,
    now: nat,
    access: Result<Seq<char>, ErrorView>,
) -> (ServerView, Result<ResponseView, ErrorView>) {
    if req.refresh_token is None {
        (s, Err((OAuthErrorKind::InvalidRequest, "refresh_token is required"@)))
    } else {
        let rv = req.refresh_token->0;
        if s.revoked.contains(rv) {
            (s, Err((OAuthErrorKind::InvalidGrant, "refresh token has been revoked"@)))
        } else if !s.refresh.dom().contains(rv) {
            (s, Err((OAuthErrorKind::InvalidGrant, "refresh token not found"@)))
        } else {
            let st = s.refresh[rv];
            if now >= st.expires_at {
                (s, Err((OAuthErrorKind::InvalidGrant, "refresh token has expired"@)))
            } else if st.client_id != req.client_id {
                (s, Err((OAuthErrorKind::InvalidGrant, "client_id mismatch"@)))
            } else if !s.clients.dom().contains(req.client_id) {
                (s, Err(client_not_found(req.client_id)))
            } else if confidential_auth_fails(s.clients[req.client_id], req.client_secret) {
                (s, Err((OAuthErrorKind::InvalidClient, "client authentication failed"@)))
            } else if req.scopes is Some && first_ungranted(req.scopes->0, st.scopes) is Some {
                (
                    s,
                    Err((
                        OAuthErrorKind::InvalidScope,
                        "scope '"@ + first_ungranted(req.scopes->0, st.scopes)->0
                            + "' was not in original grant"@,
                    )),
                )
            } else {
                let scopes = match req.scopes {
                    Some(rs) => rs,
                    None => st.scopes,
                };
                match access {
                    Err(e) => (s, Err(e)),
                    Ok(a) => {
                        let at = TokenView {
                            token: a,
                            token_type: TokenType::Bearer,
                            client_id: req.client_id,
                            scopes,
                            issued_at: now,
                            expires_at: expiry(now, cfg.access_token_lifetime@),
                            subject: st.subject,
                            is_refresh_token: false,
                        };
                        (
                            ServerView { access: s.access.insert(a, at), ..s },
                            Ok(ResponseView {
                                access_token: a,
                                token_type: "bearer"@,
                                expires_in: secs_until(at.expires_at, now),
                                refresh_token: None,
                                scope: scope_field(scopes),
                            }),
                        )
                    },
                }
            }
        }
    }
}

/// The result of a token request, given the time and two freshly drawn token
/// values (the refresh grant uses only the first).
pub open spec fn token_outcome(
    s: ServerView,
    cfg: OAuthServerConfig,
    req: TokenRequestView,
    now: nat,
    access: Result<Seq<char>, ErrorView>,
    refresh: Result<Seq<char>, ErrorView>,
) -> (ServerView, Result<ResponseView, ErrorView>) {
    if req.grant_type == "authorization_code"@ {
        code_exchange_outcome(s, cfg, req, now, access, refresh)
    } else if req.grant_type == "refresh_token"@ {
        refresh_outcome(s, cfg, req, now, access)
    } else {
        (
            s,
            Err((
                OAuthErrorKind::UnsupportedGrantType,
                "grant_type '"@ + req.grant_type + "' is not supported"@,
            )),
        )
    }
}

/// The result of revoking `token` on behalf of client `id`.  A token of the
/// client is removed from both token maps and recorded as revoked; a token of
/// another client is left as it is.  Neither that nor an unknown token is an
/// error (RFC 7009).
pub open spec fn revoke_outcome(s: ServerView, token: Seq<char>, id: Seq<char>, secret: Option<Seq<char>>) -> (ServerView, Result<(), ErrorView>) {
    if !s.clients.dom().contains(id) {
        (s, Err(client_not_found(id)))
    } else if confidential_auth_fails(s.clients[id], secret) {
        (s, Err((OAuthErrorKind::InvalidClient, "client authentication failed"@)))
    } else {
        let in_access = s.access.dom().contains(token);
        let in_refresh = s.refresh.dom().contains(token);
        if (in_access && s.access[token].client_id != id) || (in_refresh && s.refresh[token].client_id != id) {
            (s, Ok(()))
        } else if in_access || in_refresh {
            (
                ServerView {
                    access: s.access.remove(token),
                    refresh: s.refresh.remove(token),
                    revoked: s.revoked.insert(token),
                    ..s
                },
                Ok(()),
            )
        } else {
            (s, Ok(()))
        }
    }
}

/// The live access token `token` at time `now`: issued, not revoked, not
/// expired.
pub open spec fn live_access_token(s: ServerView, token: Seq<char>, now: nat) -> Option<TokenView> {
    if s.revoked.contains(token) {
        None
    } else if !s.access.dom().contains(token) {
        None
    } else if now >= s.access[token].expires_at {
        None
    } else {
        Some(s.access[token])
    }
}

/// The state with every code and token that has expired at `now` dropped.
pub open spec fn cleanup_outcome(s: ServerView, now: nat) -> ServerView {
    ServerView {
        codes: s.codes.remove_keys(s.codes.dom().filter(|k: Seq<char>| now >= s.codes[k].expires_at)),
        access: s.access.remove_keys(s.access.dom().filter(|k: Seq<char>| now >= s.access[k].expires_at)),
        refresh: s.refresh.remove_keys(s.refresh.dom().filter(|k: Seq<char>| now >= s.refresh[k].expires_at)),
        ..s
    }
}

// =============================================================================
// OAuth server
// =============================================================================

/// OAuth 2.0/2.1 authorization server.
///
/// Implements the authorization code flow with PKCE, which OAuth 2.1 requires.
#[derive(Debug)]
pub struct OAuthServer {
    config: OAuthServerConfig,
    /// The server's clients, codes and tokens.
    pub state: OAuthServerState,
}

/// Whether every client of `s` is registered under its own client ID.
pub open spec fn clients_keyed(s: ServerView) -> bool {
    forall|k: Seq<char>| #[trigger] s.clients.dom().contains(k) ==> s.clients[k].client_id == k
}

impl View for OAuthServer {
    type V = ServerView;

    closed spec fn view(&self) -> ServerView {
        self.state@
    }
}

/// Statistics about the OAuth server state.
#[derive(Debug, Clone, Default)]
pub struct OAuthServerStats {
    /// Number of registered clients.
    pub clients: usize,
    /// Number of pending authorization codes.
    pub authorization_codes: usize,
    /// Number of active access tokens.
    pub access_tokens: usize,
    /// Number of active refresh tokens.
    pub refresh_tokens: usize,
    /// Number of revoked tokens.
    pub revoked_tokens: usize,
}

/// The view of a drawn token value.
pub open spec fn drawn(r: Result<String, OAuthError>) -> Result<Seq<char>, ErrorView> {
    outcome(r, |t: String| t@)
}

impl OAuthServer {
    /// The server's configuration.
    pub closed spec fn cfg(&self) -> OAuthServerConfig {
        self.config
    }


    /// Creates a new OAuth server with the given configuration.
    pub fn new(config: OAuthServerConfig) -> (s: Self)
        ensures
            s@ == empty_server_view(),
            s.cfg() == config,
    {
        OAuthServer { config, state: OAuthServerState::new() }
    }

    /// Creates a new OAuth server with the default configuration.
    pub fn with_defaults() -> (s: Self)
        ensures
            s@ == empty_server_view(),
            s.cfg().issuer@ == "fastmcp"@,
            s.cfg().access_token_lifetime@ == 3600 * 1_000_000_000,
            s.cfg().refresh_token_lifetime@ == 86400 * 30 * 1_000_000_000,
            s.cfg().authorization_code_lifetime@ == 600 * 1_000_000_000,
            s.cfg().allow_public_clients,
            s.cfg().min_code_verifier_length == 43,
            s.cfg().max_code_verifier_length == 128,
            s.cfg().token_entropy_bytes == 32,
    {
        Self::new(OAuthServerConfig::default())
    }

    /// Returns the server configuration.
    pub fn config(&self) -> (c: &OAuthServerConfig)
        ensures
            *c == self.cfg(),
    {
        &self.config
    }

    // -------------------------------------------------------------------------
    // Client registration
    // -------------------------------------------------------------------------

    /// Registers a new OAuth client.
    ///
    /// Fails where public clients are not allowed and the client has no
    /// secret, or where a client with the same ID is registered.
    pub fn register_client(&mut self, client: OAuthClient) -> (r: Result<(), OAuthError>)
        ensures
            final(self).cfg() == old(self).cfg(),
            (final(self)@, outcome(r, |u: ()| u)) == register_outcome(old(self)@, old(self).cfg(), client@),
    {
        if client.client_type == ClientType::Public && !self.config.allow_public_clients {
            return Err(err(OAuthErrorKind::InvalidClient, "public clients are not allowed"));
        }
        if self.state.clients.contains_key(client.client_id.as_str()) {
            return Err(err3(OAuthErrorKind::InvalidClient, "client '", client.client_id.as_str(), "' already exists"));
        }
        let ghost cv = client@;
        self.state.clients.insert(client);
        assert(self@ =~= register_outcome(old(self)@, old(self).cfg(), cv).0);
        Ok(())
    }

    /// Unregisters an OAuth client, revoking every token issued to it and
    /// dropping its pending authorization codes.
    pub fn unregister_client(&mut self, client_id: &str) -> (r: Result<(), OAuthError>)
        ensures
            final(self).cfg() == old(self).cfg(),
            (final(self)@, outcome(r, |u: ()| u)) == unregister_outcome(old(self)@, client_id@),
    {
        if self.state.clients.remove(client_id).is_none() {
            return Err(err3(OAuthErrorKind::InvalidClient, "client '", client_id, "' not found"));
        }
        let ghost s0 = old(self)@;
        let token_of_client = |t: &OAuthToken| -> (b: bool)
            ensures
                b == (t.client_id@ == client_id@),
            { str_eq(t.client_id.as_str(), client_id) };
        let code_of_client = |c: &AuthorizationCode| -> (b: bool)
            ensures
                b == (c.client_id@ == client_id@),
            { str_eq(c.client_id.as_str(), client_id) };
        let access_keys = self.state.access_tokens.keys_where(
            token_of_client,
            Ghost(|t: OAuthToken| t.client_id@ == client_id@),
        );
        assert(texts(access_keys@).to_set() =~= tokens_of_client(s0.access, client_id@));
        self.state.access_tokens.remove_all(&access_keys);
        self.state.revoked_tokens.insert_all(&access_keys);
        let refresh_keys = self.state.refresh_tokens.keys_where(
            token_of_client,
            Ghost(|t: OAuthToken| t.client_id@ == client_id@),
        );
        assert(texts(refresh_keys@).to_set() =~= tokens_of_client(s0.refresh, client_id@));
        self.state.refresh_tokens.remove_all(&refresh_keys);
        self.state.revoked_tokens.insert_all(&refresh_keys);
        let code_keys = self.state.authorization_codes.keys_where(
            code_of_client,
            Ghost(|c: AuthorizationCode| c.client_id@ == client_id@),
        );
        assert(texts(code_keys@).to_set() =~= codes_of_client(s0.codes, client_id@));
        self.state.authorization_codes.remove_all(&code_keys);
        assert(self@ =~= unregister_outcome(s0, client_id@).0);
        Ok(())
    }

    /// Gets a copy of the registered client with the given ID.
    pub fn get_client(&self, client_id: &str) -> (r: Option<OAuthClient>)
        ensures
            r is Some <==> self@.clients.dom().contains(client_id@),
            r matches Some(c) ==> c@ == self@.clients[client_id@],
    {
        match self.state.clients.get(client_id) {
            Some(c) => Some(c.duplicate()),
            None => None,
        }
    }

    /// Lists copies of all registered clients, in registration order.
    pub fn list_clients(&self) -> (r: Vec<OAuthClient>)
        ensures
            r@.len() == self@.clients.dom().len(),
            r@.map_values(|c: OAuthClient| c@).to_set() == self@.clients.values(),
            forall|j: int| #![trigger r@[j]] 0 <= j < r@.len() ==> self@.clients.dom().contains(r@[j].client_id@)
                && self@.clients[r@[j].client_id@] == r@[j]@,
            forall|i: int, j: int| 0 <= i < j < r@.len() ==> #[trigger] r@[i].client_id@ != #[trigger] r@[j].client_id@,
    {
        let n = self.state.clients.len();
        let ghost es = self.state.clients.entries();
        let mut r: Vec<OAuthClient> = Vec::new();
        let mut i: usize = 0;
        while i < n
            invariant
                n == es.len(),
                es == self.state.clients.entries(),
                crate::store::keys_unique(es),
                self.state.clients@ == crate::store::entries_map(es),
                i <= n,
                r@.len() == i,
                forall|j: int| 0 <= j < i ==> #[trigger] r@[j]@ == es[j].1@,
            decreases n - i,
        {
            let c = self.state.clients.value_at(i);
            r.push(c.duplicate());
            i += 1;
        }
        proof {
            let rv = r@.map_values(|c: OAuthClient| c@);
            assert(self@.clients.dom() =~= self.state.clients@.dom());
            assert forall|v: ClientView| rv.to_set().contains(v) <==> self@.clients.values().contains(v) by {
                if rv.contains(v) {
                    let j = choose|j: int| 0 <= j < rv.len() && rv[j] == v;
                    crate::store::lemma_entry_in_map(es, j);
                    assert(self@.clients.dom().contains(es[j].0@));
                    assert(self@.clients[es[j].0@] == v);
                }
                if self@.clients.contains_value(v) {
                    let k = choose|k: Seq<char>| #[trigger] self@.clients.dom().contains(k) && self@.clients[k] == v;
                    let j = crate::store::index_of_key(es, k);
                    crate::store::lemma_entry_in_map(es, j);
                    assert(rv[j] == v);
                }
            }
            assert(rv.to_set() =~= self@.clients.values());
            assert forall|j: int| #![trigger r@[j]] 0 <= j < r@.len() implies self@.clients.dom().contains(
                r@[j].client_id@,
            ) && self@.clients[r@[j].client_id@] == r@[j]@ by {
                crate::store::lemma_entry_in_map(es, j);
                assert(self.state.clients@[es[j].0@].client_id@ == es[j].0@);
                assert(r@[j]@.client_id == r@[j].client_id@);
                assert(es[j].1@.client_id == es[j].1.client_id@);
                assert(self@.clients.dom().contains(es[j].0@));
                assert(self@.clients[es[j].0@] == es[j].1@);
            }
            assert forall|i: int, j: int| 0 <= i < j < r@.len() implies #[trigger] r@[i].client_id@
                != #[trigger] r@[j].client_id@ by {
                crate::store::lemma_entry_in_map(es, i);
                crate::store::lemma_entry_in_map(es, j);
                assert(self.state.clients@[es[i].0@].client_id@ == es[i].0@);
                assert(self.state.clients@[es[j].0@].client_id@ == es[j].0@);
                assert(r@[i]@.client_id == r@[i].client_id@);
                assert(r@[j]@.client_id == r@[j].client_id@);
            }
        }
        r
    }

    // -------------------------------------------------------------------------
    // Authorization endpoint
    // -------------------------------------------------------------------------

    /// Why an authorization request is turned down, if it is.
    fn authorize_check(&self, request: &AuthorizationRequest) -> (r: Option<OAuthError>)
        ensures
            match authorize_rejection(self@, request@) {
                Some(e) => r matches Some(x) && x.view_err() == e,
                None => r is None,
            },
    {
        if !str_eq(request.response_type.as_str(), "code") {
            return Some(err(OAuthErrorKind::UnsupportedResponseType, "only 'code' response_type is supported"));
        }
        let client = match self.state.clients.get(request.client_id.as_str()) {
            Some(c) => c,
            None => {
                return Some(err3(OAuthErrorKind::InvalidClient, "client '", request.client_id.as_str(), "' not found"));
            },
        };
        if !client.validate_redirect_uri(request.redirect_uri.as_str()) {
            return Some(err(OAuthErrorKind::InvalidRequest, "invalid redirect_uri"));
        }
        if !client.validate_scopes(request.scopes.as_slice()) {
            return Some(err(OAuthErrorKind::InvalidScope, "requested scope not allowed"));
        }
        if request.code_challenge.as_str().is_empty() {
            return Some(err(OAuthErrorKind::InvalidRequest, "code_challenge is required (PKCE)"));
        }
        None
    }

    /// Validates an authorization request and, with the given fresh code
    /// value and time, stores an authorization code for it.
    ///
    /// Returns the code and the redirect URI carrying it.
    pub fn authorize_with(
        &mut self,
        request: &AuthorizationRequest,
        subject: Option<String>,
        code: Result<String, OAuthError>,
        now: Instant,
    ) -> (r: Result<(String, String), OAuthError>)
        ensures
            final(self).cfg() == old(self).cfg(),
            (final(self)@, outcome(r, |p: (String, String)| (p.0@, p.1@))) == authorize_outcome(
                old(self)@,
                old(self).cfg(),
                request@,
                opt_text(subject),
                drawn(code),
                now@,
            ),
    {
        if let Some(e) = self.authorize_check(request) {
            return Err(e);
        }
        let code_value = match code {
            Ok(v) => v,
            Err(e) => return Err(e),
        };
        let ghost subject_text = opt_text(subject);
        let stored = AuthorizationCode {
            code: code_value.clone(),
            client_id: request.client_id.clone(),
            redirect_uri: request.redirect_uri.clone(),
            scopes: clone_strings(&request.scopes),
            code_challenge: request.code_challenge.clone(),
            code_challenge_method: request.code_challenge_method,
            issued_at: now,
            expires_at: now.saturating_add(self.config.authorization_code_lifetime),
            subject,
            state: clone_opt_string(&request.state),
        };
        assert(stored@ == new_code(self.cfg(), request@, subject_text, code_value@, now@));
        self.state.authorization_codes.insert(code_value.clone(), stored);
        let mut redirect = request.redirect_uri.clone();
        let uri_chars = str_chars(request.redirect_uri.as_str());
        if chars_contain(&uri_chars, '?') {
            redirect.append("&");
        } else {
            redirect.append("?");
        }
        redirect.append("code=");
        let encoded_code = url_encode(code_value.as_str());
        redirect.append(encoded_code.as_str());
        match &request.state {
            Some(st) => {
                redirect.append("&state=");
                let encoded_state = url_encode(st.as_str());
                redirect.append(encoded_state.as_str());
            },
            None => {},
        }
        assert(self@ =~= authorize_outcome(old(self)@, old(self).cfg(), request@, subject_text, drawn(Ok(code_value)), now@).0);
        Ok((code_value, redirect))
    }

    /// Validates an authorization request and creates an authorization code,
    /// drawn at random and stamped with the current time.
    ///
    /// Returns the code and the redirect URI carrying it.
    pub fn authorize(&mut self, request: &AuthorizationRequest, subject: Option<String>) -> (r: Result<(String, String), OAuthError>)
        requires
            old(self).cfg().token_entropy_bytes <= usize::MAX / 2,
        ensures
            final(self).cfg() == old(self).cfg(),
            exists|code: Result<Seq<char>, ErrorView>, now: nat|
                is_fresh_token(code, old(self).cfg().token_entropy_bytes as nat) && (final(self)@, outcome(
                    r,
                    |p: (String, String)| (p.0@, p.1@),
                )) == #[trigger] authorize_outcome(old(self)@, old(self).cfg(), request@, opt_text(subject), code, now),
    {
        if let Some(e) = self.authorize_check(request) {
            let ghost w: Result<Seq<char>, ErrorView> = Err((OAuthErrorKind::ServerError, Seq::empty()));
            assert(is_fresh_token(w, old(self).cfg().token_entropy_bytes as nat));
            assert((self@, outcome(Err::<(String, String), OAuthError>(e), |p: (String, String)| (p.0@, p.1@)))
                == authorize_outcome(old(self)@, old(self).cfg(), request@, opt_text(subject), w, 0));
            return Err(e);
        }
        let code = generate_token(self.config.token_entropy_bytes);
        let now = Instant::now();
        let ghost c = drawn(code);
        let r = self.authorize_with(request, subject, code, now);
        assert(is_fresh_token(c, old(self).cfg().token_entropy_bytes as nat));
        r
    }


    // -------------------------------------------------------------------------
    // Token endpoint
    // -------------------------------------------------------------------------

    /// Exchanges an authorization code or a refresh token for tokens, at time
    /// `now`, with two freshly drawn token values (the refresh grant uses only
    /// the first).
    pub fn token_with(
        &mut self,
        request: &TokenRequest,
        now: Instant,
        access: Result<String, OAuthError>,
        refresh: Result<String, OAuthError>,
    ) -> (r: Result<TokenResponse, OAuthError>)
        ensures
            final(self).cfg() == old(self).cfg(),
            (final(self)@, outcome(r, |t: TokenResponse| t@)) == token_outcome(
                old(self)@,
                old(self).cfg(),
                request@,
                now@,
                drawn(access),
                drawn(refresh),
            ),
    {
        if str_eq(request.grant_type.as_str(), "authorization_code") {
            self.token_authorization_code(request, now, access, refresh)
        } else if str_eq(request.grant_type.as_str(), "refresh_token") {
            self.token_refresh_token(request, now, access)
        } else {
            Err(err3(
                OAuthErrorKind::UnsupportedGrantType,
                "grant_type '",
                request.grant_type.as_str(),
                "' is not supported",
            ))
        }
    }

    /// Exchanges an authorization code or a refresh token for tokens, drawn at
    /// random and stamped with the current time.
    pub fn token(&mut self, request: &TokenRequest) -> (r: Result<TokenResponse, OAuthError>)
        requires
            old(self).cfg().token_entropy_bytes <= usize::MAX / 2,
        ensures
            final(self).cfg() == old(self).cfg(),
            exists|now: nat, a: Result<Seq<char>, ErrorView>, b: Result<Seq<char>, ErrorView>|
                is_fresh_token(a, old(self).cfg().token_entropy_bytes as nat) && is_fresh_token(
                    b,
                    old(self).cfg().token_entropy_bytes as nat,
                ) && (final(self)@, outcome(r, |t: TokenResponse| t@)) == #[trigger] token_outcome(
                    old(self)@,
                    old(self).cfg(),
                    request@,
                    now,
                    a,
                    b,
                ),
    {
        let now = Instant::now();
        let access = generate_token(self.config.token_entropy_bytes);
        let refresh = generate_token(self.config.token_entropy_bytes);
        let ghost a = drawn(access);
        let ghost b = drawn(refresh);
        let r = self.token_with(request, now, access, refresh);
        assert(is_fresh_token(a, old(self).cfg().token_entropy_bytes as nat));
        assert(is_fresh_token(b, old(self).cfg().token_entropy_bytes as nat));
        r
    }

    /// Whether the client `client_id` is unknown (`None`) or, being
    /// confidential, fails to authenticate with `secret`.
    fn client_auth_check(&self, client_id: &str, secret: Option<&str>) -> (r: Option<bool>)
        ensures
            r is None <==> !self@.clients.dom().contains(client_id@),
            r matches Some(fails) ==> fails == confidential_auth_fails(
                self@.clients[client_id@],
                opt_str_text(secret),
            ),
    {
        match self.state.clients.get(client_id) {
            None => None,
            Some(c) => {
                assert(self@.clients[client_id@] == c@);
                Some(c.client_type == ClientType::Confidential && !c.authenticate(secret))
            },
        }
    }

    fn token_authorization_code(
        &mut self,
        request: &TokenRequest,
        now: Instant,
        access: Result<String, OAuthError>,
        refresh: Result<String, OAuthError>,
    ) -> (r: Result<TokenResponse, OAuthError>)
        ensures
            final(self).cfg() == old(self).cfg(),
            (final(self)@, outcome(r, |t: TokenResponse| t@)) == code_exchange_outcome(
                old(self)@,
                old(self).cfg(),
                request@,
                now@,
                drawn(access),
                drawn(refresh),
            ),
    {
        let code_value = match &request.code {
            Some(c) => c,
            None => {
                return Err(err(OAuthErrorKind::InvalidRequest, "code is required"));
            },
        };
        let redirect_uri = match &request.redirect_uri {
            Some(u) => u,
            None => {
                return Err(err(OAuthErrorKind::InvalidRequest, "redirect_uri is required"));
            },
        };
        let code_verifier = match &request.code_verifier {
            Some(v) => v,
            None => {
                return Err(err(OAuthErrorKind::InvalidRequest, "code_verifier is required (PKCE)"));
            },
        };
        let vlen = code_verifier.as_str().as_bytes().len();
        if vlen < self.config.min_code_verifier_length || vlen > self.config.max_code_verifier_length {
            let mut msg = "code_verifier must be between ".to_string();
            let lo = usize_to_decimal(self.config.min_code_verifier_length);
            let hi = usize_to_decimal(self.config.max_code_verifier_length);
            msg.append(lo.as_str());
            msg.append(" and ");
            msg.append(hi.as_str());
            msg.append(" characters");
            return Err(OAuthError::InvalidRequest(msg));
        }
        let ghost s0 = old(self)@;
        let auth_code = match self.state.authorization_codes.remove(code_value.as_str()) {
            Some(c) => c,
            None => {
                assert(self@ =~= s0);
                return Err(err(OAuthErrorKind::InvalidGrant, "authorization code not found or already used"));
            },
        };
        let ghost s1 = ServerView { codes: s0.codes.remove(code_value@), ..s0 };
        assert(self@ =~= s1);
        if auth_code.is_expired_at(now) {
            return Err(err(OAuthErrorKind::InvalidGrant, "authorization code has expired"));
        }
        if !(auth_code.client_id == request.client_id) {
            return Err(err(OAuthErrorKind::InvalidGrant, "client_id mismatch"));
        }
        if !(auth_code.redirect_uri == *redirect_uri) {
            return Err(err(OAuthErrorKind::InvalidGrant, "redirect_uri mismatch"));
        }
        if !auth_code.validate_code_verifier(code_verifier.as_str()) {
            return Err(err(OAuthErrorKind::InvalidGrant, "code_verifier validation failed"));
        }
        let secret = opt_as_str(&request.client_secret);
        match self.client_auth_check(request.client_id.as_str(), secret) {
            None => {
                return Err(err3(OAuthErrorKind::InvalidClient, "client '", request.client_id.as_str(), "' not found"));
            },
            Some(true) => {
                return Err(err(OAuthErrorKind::InvalidClient, "client authentication failed"));
            },
            Some(false) => {},
        }
        self.issue_tokens(&auth_code.client_id, &auth_code.scopes, &auth_code.subject, now, access, refresh)
    }

    fn token_refresh_token(
        &mut self,
        request: &TokenRequest,
        now: Instant,
        access: Result<String, OAuthError>,
    ) -> (r: Result<TokenResponse, OAuthError>)
        ensures
            final(self).cfg() == old(self).cfg(),
            (final(self)@, outcome(r, |t: TokenResponse| t@)) == refresh_outcome(
                old(self)@,
                old(self).cfg(),
                request@,
                now@,
                drawn(access),
            ),
    {
        let refresh_value = match &request.refresh_token {
            Some(v) => v,
            None => {
                return Err(err(OAuthErrorKind::InvalidRequest, "refresh_token is required"));
            },
        };
        if self.state.revoked_tokens.contains(refresh_value.as_str()) {
            return Err(err(OAuthErrorKind::InvalidGrant, "refresh token has been revoked"));
        }
        let stored = match self.state.refresh_tokens.get(refresh_value.as_str()) {
            Some(t) => t.duplicate(),
            None => {
                return Err(err(OAuthErrorKind::InvalidGrant, "refresh token not found"));
            },
        };
        assert(stored@ == self@.refresh[refresh_value@]);
        if stored.is_expired_at(now) {
            return Err(err(OAuthErrorKind::InvalidGrant, "refresh token has expired"));
        }
        if !(stored.client_id == request.client_id) {
            return Err(err(OAuthErrorKind::InvalidGrant, "client_id mismatch"));
        }
        let secret = opt_as_str(&request.client_secret);
        match self.client_auth_check(request.client_id.as_str(), secret) {
            None => {
                return Err(err3(OAuthErrorKind::InvalidClient, "client '", request.client_id.as_str(), "' not found"));
            },
            Some(true) => {
                return Err(err(OAuthErrorKind::InvalidClient, "client authentication failed"));
            },
            Some(false) => {},
        }
        let scopes = match &request.scopes {
            Some(requested) => {
                match first_ungranted_index(requested, &stored.scopes) {
                    Some(i) => {
                        return Err(err3(
                            OAuthErrorKind::InvalidScope,
                            "scope '",
                            requested[i].as_str(),
                            "' was not in original grant",
                        ));
                    },
                    None => clone_strings(requested),
                }
            },
            None => clone_strings(&stored.scopes),
        };
        let access_value = match access {
            Ok(v) => v,
            Err(e) => {
                return Err(e);
            },
        };
        let issued = OAuthToken {
            token: access_value.clone(),
            token_type: TokenType::Bearer,
            client_id: request.client_id.clone(),
            scopes: clone_strings(&scopes),
            issued_at: now,
            expires_at: now.saturating_add(self.config.access_token_lifetime),
            subject: clone_opt_string(&stored.subject),
            is_refresh_token: false,
        };
        let expires_in = issued.expires_in_secs_at(now);
        let ghost iv = issued@;
        self.state.access_tokens.insert(access_value.clone(), issued);
        assert(self@ =~= ServerView { access: old(self)@.access.insert(access_value@, iv), ..old(self)@ });
        Ok(TokenResponse {
            access_token: access_value,
            token_type: "bearer".to_string(),
            expires_in,
            refresh_token: None,
            scope: scope_of(&scopes),
        })
    }

    fn issue_tokens(
        &mut self,
        client_id: &String,
        scopes: &Vec<String>,
        subject: &Option<String>,
        now: Instant,
        access: Result<String, OAuthError>,
        refresh: Result<String, OAuthError>,
    ) -> (r: Result<TokenResponse, OAuthError>)
        ensures
            final(self).cfg() == old(self).cfg(),
            (final(self)@, outcome(r, |t: TokenResponse| t@)) == issue_outcome(
                old(self)@,
                old(self).cfg(),
                client_id@,
                texts(scopes@),
                opt_text(*subject),
                now@,
                drawn(access),
                drawn(refresh),
            ),
    {
        let access_value = match access {
            Ok(v) => v,
            Err(e) => {
                return Err(e);
            },
        };
        let refresh_value = match refresh {
            Ok(v) => v,
            Err(e) => {
                return Err(e);
            },
        };
        let access_cred = OAuthToken {
            token: access_value.clone(),
            token_type: TokenType::Bearer,
            client_id: client_id.clone(),
            scopes: clone_strings(scopes),
            issued_at: now,
            expires_at: now.saturating_add(self.config.access_token_lifetime),
            subject: clone_opt_string(subject),
            is_refresh_token: false,
        };
        let refresh_cred = OAuthToken {
            token: refresh_value.clone(),
            token_type: TokenType::Bearer,
            client_id: client_id.clone(),
            scopes: clone_strings(scopes),
            issued_at: now,
            expires_at: now.saturating_add(self.config.refresh_token_lifetime),
            subject: clone_opt_string(subject),
            is_refresh_token: true,
        };
        let expires_in = access_cred.expires_in_secs_at(now);
        let ghost av = access_cred@;
        let ghost rv = refresh_cred@;
        self.state.access_tokens.insert(access_value.clone(), access_cred);
        self.state.refresh_tokens.insert(refresh_value.clone(), refresh_cred);
        assert(self@ =~= ServerView {
            access: old(self)@.access.insert(access_value@, av),
            refresh: old(self)@.refresh.insert(refresh_value@, rv),
            ..old(self)@
        });
        Ok(TokenResponse {
            access_token: access_value,
            token_type: TokenType::Bearer.as_str().to_string(),
            expires_in,
            refresh_token: Some(refresh_value),
            scope: scope_of(scopes),
        })
    }

    // -------------------------------------------------------------------------
    // Token revocation (RFC 7009)
    // -------------------------------------------------------------------------

    /// Revokes a token (access or refresh) on behalf of a client.
    ///
    /// Per RFC 7009 an unknown token is no error.
    pub fn revoke(&mut self, token: &str, client_id: &str, client_secret: Option<&str>) -> (r: Result<(), OAuthError>)
        ensures
            final(self).cfg() == old(self).cfg(),
            (final(self)@, outcome(r, |u: ()| u)) == revoke_outcome(
                old(self)@,
                token@,
                client_id@,
                opt_str_text(client_secret),
            ),
    {
        match self.client_auth_check(client_id, client_secret) {
            None => {
                return Err(err3(OAuthErrorKind::InvalidClient, "client '", client_id, "' not found"));
            },
            Some(true) => {
                return Err(err(OAuthErrorKind::InvalidClient, "client authentication failed"));
            },
            Some(false) => {},
        }
        let ghost s0 = old(self)@;
        // A token that another client holds is not this client's to revoke.
        if let Some(t) = self.state.access_tokens.get(token) {
            if !str_eq(t.client_id.as_str(), client_id) {
                return Ok(());
            }
        }
        if let Some(t) = self.state.refresh_tokens.get(token) {
            if !str_eq(t.client_id.as_str(), client_id) {
                return Ok(());
            }
        }
        let found_access = self.state.access_tokens.remove(token);
        let found_refresh = self.state.refresh_tokens.remove(token);
        if found_access.is_some() || found_refresh.is_some() {
            self.state.revoked_tokens.insert(token.to_string());
            assert(self@ =~= ServerView {
                access: s0.access.remove(token@),
                refresh: s0.refresh.remove(token@),
                revoked: s0.revoked.insert(token@),
                ..s0
            });
        } else {
            assert(self@ =~= s0);
        }
        Ok(())
    }

    // -------------------------------------------------------------------------
    // Token introspection
    // -------------------------------------------------------------------------

    /// The access token `token` with its metadata, where it is issued, not
    /// revoked and not expired at time `now`.
    pub fn validate_access_token_at(&self, token: &str, now: Instant) -> (r: Option<OAuthToken>)
        ensures
            match r {
                Some(t) => live_access_token(self@, token@, now@) == Some(t@),
                None => live_access_token(self@, token@, now@) is None,
            },
    {
        if self.state.revoked_tokens.contains(token) {
            return None;
        }
        match self.state.access_tokens.get(token) {
            None => None,
            Some(t) => {
                assert(self@.access[token@] == t@);
                if t.is_expired_at(now) {
                    None
                } else {
                    Some(t.duplicate())
                }
            },
        }
    }

    /// Validates an access token by the clock and returns its metadata.
    pub fn validate_access_token(&self, token: &str) -> (r: Option<OAuthToken>)
        ensures
            exists|now: nat|
                match r {
                    Some(t) => live_access_token(self@, token@, now) == Some(t@),
                    None => live_access_token(self@, token@, now) is None,
                },
    {
        let now = Instant::now();
        self.validate_access_token_at(token, now)
    }

    // -------------------------------------------------------------------------
    // Maintenance
    // -------------------------------------------------------------------------

    /// Removes the codes and tokens that have expired at time `now`.
    pub fn cleanup_expired_at(&mut self, now: Instant)
        ensures
            final(self).cfg() == old(self).cfg(),
            final(self)@ == cleanup_outcome(old(self)@, now@),
    {
        let ghost s0 = old(self)@;
        let code_expired = |c: &AuthorizationCode| -> (b: bool)
            ensures
                b == (now@ >= c.expires_at@),
            { c.is_expired_at(now) };
        let token_expired = |t: &OAuthToken| -> (b: bool)
            ensures
                b == (now@ >= t.expires_at@),
            { t.is_expired_at(now) };
        let codes = self.state.authorization_codes.keys_where(
            code_expired,
            Ghost(|c: AuthorizationCode| now@ >= c.expires_at@),
        );
        self.state.authorization_codes.remove_all(&codes);
        let access = self.state.access_tokens.keys_where(
            token_expired,
            Ghost(|t: OAuthToken| now@ >= t.expires_at@),
        );
        self.state.access_tokens.remove_all(&access);
        let refresh = self.state.refresh_tokens.keys_where(
            token_expired,
            Ghost(|t: OAuthToken| now@ >= t.expires_at@),
        );
        self.state.refresh_tokens.remove_all(&refresh);
        assert(self@ =~= cleanup_outcome(s0, now@));
    }

    /// Removes the codes and tokens that have expired, by the clock.
    pub fn cleanup_expired(&mut self)
        ensures
            final(self).cfg() == old(self).cfg(),
            exists|now: nat| final(self)@ == cleanup_outcome(old(self)@, now),
    {
        let now = Instant::now();
        self.cleanup_expired_at(now);
    }

    /// Returns statistics about the server state.
    pub fn stats(&self) -> (st: OAuthServerStats)
        ensures
            st.clients == self@.clients.dom().len(),
            st.authorization_codes == self@.codes.dom().len(),
            st.access_tokens == self@.access.dom().len(),
            st.refresh_tokens == self@.refresh.dom().len(),
            st.revoked_tokens == self@.revoked.len(),
    {
        assert(self@.clients.dom() =~= self.state.clients@.dom());
        assert(self@.codes.dom() =~= self.state.authorization_codes@.dom());
        assert(self@.access.dom() =~= self.state.access_tokens@.dom());
        assert(self@.refresh.dom() =~= self.state.refresh_tokens@.dom());
        OAuthServerStats {
            clients: self.state.clients.len(),
            authorization_codes: self.state.authorization_codes.len(),
            access_tokens: self.state.access_tokens.len(),
            refresh_tokens: self.state.refresh_tokens.len(),
            revoked_tokens: self.state.revoked_tokens.len(),
        }
    }
}

/// The string slice of an optional string.
pub fn opt_as_str(o: &Option<String>) -> (r: Option<&str>)
    ensures
        opt_str_text(r) == opt_text(*o),
{
    match o {
        Some(s) => Some(s.as_str()),
        None => None,
    }
}

proof fn lemma_first_ungranted_skip(s: Seq<Seq<char>>, granted: Seq<Seq<char>>, i: int)
    requires
        0 <= i <= s.len(),
        forall|j: int| 0 <= j < i ==> granted.contains(#[trigger] s[j]),
    ensures
        first_ungranted(s, granted) == first_ungranted(s.skip(i), granted),
    decreases i,
{
    if i > 0 {
        assert(granted.contains(s[0]));
        lemma_first_ungranted_skip(s.drop_first(), granted, i - 1);
        assert(s.drop_first().skip(i - 1) =~= s.skip(i));
    } else {
        assert(s.skip(0) =~= s);
    }
}

/// Whether `text` is among `items`.
fn strings_contain(items: &Vec<String>, text: &String) -> (r: bool)
    ensures
        r == texts(items@).contains(text@),
{
    let mut i: usize = 0;
    while i < items.len()
        invariant
            i <= items@.len(),
            forall|j: int| 0 <= j < i ==> items@[j]@ != text@,
        decreases items@.len() - i,
    {
        if items[i] == *text {
            assert(texts(items@)[i as int] == text@);
            return true;
        }
        i += 1;
    }
    assert(!texts(items@).contains(text@)) by {
        if texts(items@).contains(text@) {
            let j = choose|j: int| 0 <= j < texts(items@).len() && texts(items@)[j] == text@;
            assert(items@[j]@ == text@);
        }
    }
    false
}

/// The position of the first requested scope that was not granted.
fn first_ungranted_index(requested: &Vec<String>, granted: &Vec<String>) -> (r: Option<usize>)
    ensures
        match r {
            Some(i) => i < requested@.len() && first_ungranted(texts(requested@), texts(granted@)) == Some(requested@[i as int]@),
            None => first_ungranted(texts(requested@), texts(granted@)) is None,
        },
{
    let ghost rs = texts(requested@);
    let ghost gs = texts(granted@);
    let mut i: usize = 0;
    while i < requested.len()
        invariant
            i <= requested@.len(),
            rs == texts(requested@),
            gs == texts(granted@),
            forall|j: int| 0 <= j < i ==> gs.contains(#[trigger] rs[j]),
        decreases requested@.len() - i,
    {
        if !strings_contain(granted, &requested[i]) {
            proof {
                lemma_first_ungranted_skip(rs, gs, i as int);
                assert(rs.skip(i as int)[0] == rs[i as int]);
            }
            return Some(i);
        }
        i += 1;
    }
    proof {
        lemma_first_ungranted_skip(rs, gs, i as int);
        assert(rs.skip(i as int).len() == 0);
    }
    None
}

} // verus!
