//! Properties of the OAuth server that span several operations, stated over
//! the outcome functions that the server's operations are proved to follow.
use vstd::prelude::*;
use crate::oauth::{
    authorize_outcome, cleanup_outcome, clients_keyed, redirect_allowed, uri_has_userinfo, client_authenticates, codes_of_client, expiry, new_code, scope_field, first_ungranted, live_access_token,
    register_outcome, refresh_outcome, revoke_outcome, token_outcome, tokens_of_client, unregister_outcome,
    verifier_matches, secs_until, space_joined, AuthRequestView, ClientType, ClientView, CodeChallengeMethod, ErrorView,
    OAuthErrorKind, OAuthServerConfig, ResponseView, ServerView, TokenRequestView,
};

verus! {

/// An authorization code can be exchanged at most once: after a successful
/// exchange, the same request is refused as an invalid grant, whatever the
/// time and the freshly drawn values.
pub proof fn law_code_single_use(
    s: ServerView,
    cfg: OAuthServerConfig,
    req: TokenRequestView,
    now: nat,
    a: Result<Seq<char>, ErrorView>,
    b: Result<Seq<char>, ErrorView>,
    now2: nat,
    a2: Result<Seq<char>, ErrorView>,
    b2: Result<Seq<char>, ErrorView>,
)
    requires
        req.grant_type == "authorization_code"@,
        token_outcome(s, cfg, req, now, a, b).1 is Ok,
    ensures
        token_outcome(token_outcome(s, cfg, req, now, a, b).0, cfg, req, now2, a2, b2).1 == Err::<ResponseView, ErrorView>(
            (OAuthErrorKind::InvalidGrant, "authorization code not found or already used"@),
        ),
{
    let code = req.code->0;
    let s1 = ServerView { codes: s.codes.remove(code), ..s };
    let c = s.codes[code];
    assert(token_outcome(s, cfg, req, now, a, b).0.codes == s1.codes);
}

/// A token exchange succeeds only with a PKCE verifier that answers the
/// challenge stored with the code, and only for the client the code was
/// issued to, at the redirect URI it was issued for, before it expired.
pub proof fn law_exchange_requires_pkce(
    s: ServerView,
    cfg: OAuthServerConfig,
    req: TokenRequestView,
    now: nat,
    a: Result<Seq<char>, ErrorView>,
    b: Result<Seq<char>, ErrorView>,
)
    requires
        req.grant_type == "authorization_code"@,
        token_outcome(s, cfg, req, now, a, b).1 is Ok,
    ensures
        req.code is Some && s.codes.dom().contains(req.code->0),
        req.code_verifier is Some && verifier_matches(s.codes[req.code->0], req.code_verifier->0),
        s.codes[req.code->0].client_id == req.client_id,
        req.redirect_uri == Some(s.codes[req.code->0].redirect_uri),
        now < s.codes[req.code->0].expires_at,
{
}

/// A token request from a confidential client succeeds only where the client
/// presents its secret.
pub proof fn law_confidential_clients_authenticate(
    s: ServerView,
    cfg: OAuthServerConfig,
    req: TokenRequestView,
    now: nat,
    a: Result<Seq<char>, ErrorView>,
    b: Result<Seq<char>, ErrorView>,
)
    requires
        token_outcome(s, cfg, req, now, a, b).1 is Ok,
        s.clients.dom().contains(req.client_id),
        s.clients[req.client_id].client_type == ClientType::Confidential,
    ensures
        s.clients[req.client_id].client_secret is Some,
        req.client_secret == s.clients[req.client_id].client_secret,
{
    if req.grant_type == "authorization_code"@ {
        let code = req.code->0;
        let s1 = ServerView { codes: s.codes.remove(code), ..s };
        assert(s1.clients == s.clients);
    }
}

/// An access token issued by a code exchange is live from its issue until it
/// expires, unless its value was revoked before.
pub proof fn law_issued_token_is_live(
    s: ServerView,
    cfg: OAuthServerConfig,
    req: TokenRequestView,
    now: nat,
    a: Result<Seq<char>, ErrorView>,
    b: Result<Seq<char>, ErrorView>,
    later: nat,
)
    requires
        req.grant_type == "authorization_code"@,
        token_outcome(s, cfg, req, now, a, b).1 is Ok,
        !s.revoked.contains(token_outcome(s, cfg, req, now, a, b).1->Ok_0.access_token),
        now <= later < expiry(now, cfg.access_token_lifetime@),
    ensures
        live_access_token(
            token_outcome(s, cfg, req, now, a, b).0,
            token_outcome(s, cfg, req, now, a, b).1->Ok_0.access_token,
            later,
        ) is Some,
{
}

/// A refresh grant narrows or keeps the scopes of the original grant, never
/// widens them; it issues no new refresh token and leaves the refresh tokens
/// as they were.
pub proof fn law_refresh_never_widens_scopes(
    s: ServerView,
    cfg: OAuthServerConfig,
    req: TokenRequestView,
    now: nat,
    a: Result<Seq<char>, ErrorView>,
    b: Result<Seq<char>, ErrorView>,
)
    requires
        req.grant_type == "refresh_token"@,
        token_outcome(s, cfg, req, now, a, b).1 is Ok,
    ensures
        ({
            let out = token_outcome(s, cfg, req, now, a, b);
            let granted = s.refresh[req.refresh_token->0].scopes;
            let issued = out.0.access[out.1->Ok_0.access_token].scopes;
            &&& forall|i: int| 0 <= i < issued.len() ==> granted.contains(#[trigger] issued[i])
            &&& out.1->Ok_0.refresh_token is None
            &&& out.0.refresh == s.refresh
        }),
{
    let rv = req.refresh_token->0;
    let st = s.refresh[rv];
    reveal_strlit("refresh_token");
    reveal_strlit("authorization_code");
    assert(token_outcome(s, cfg, req, now, a, b) == refresh_outcome(s, cfg, req, now, a));
    assert(req.refresh_token is Some && s.refresh.dom().contains(rv));
    assert(!(req.scopes is Some && first_ungranted(req.scopes->0, st.scopes) is Some));
    if req.scopes is Some {
        let rs = req.scopes->0;
        assert forall|i: int| 0 <= i < rs.len() implies st.scopes.contains(#[trigger] rs[i]) by {
            lemma_first_ungranted_none(rs, st.scopes, i);
        }
    }
}

/// Where no requested scope is missing from the grant, every one is in it.
pub proof fn lemma_first_ungranted_none(rs: Seq<Seq<char>>, granted: Seq<Seq<char>>, i: int)
    requires
        first_ungranted(rs, granted) is None,
        0 <= i < rs.len(),
    ensures
        granted.contains(rs[i]),
    decreases rs.len(),
{
    if i > 0 {
        lemma_first_ungranted_none(rs.drop_first(), granted, i - 1);
    }
}

/// After a client revokes a token it holds (or one that is not issued), the
/// token is live at no time.
pub proof fn law_revoked_token_is_dead(
    s: ServerView,
    token: Seq<char>,
    id: Seq<char>,
    secret: Option<Seq<char>>,
    now: nat,
)
    requires
        revoke_outcome(s, token, id, secret).1 is Ok,
        s.access.dom().contains(token) ==> s.access[token].client_id == id,
        s.refresh.dom().contains(token) ==> s.refresh[token].client_id == id,
    ensures
        live_access_token(revoke_outcome(s, token, id, secret).0, token, now) is None,
{
}

/// A client cannot revoke another client's token: the request succeeds and
/// changes nothing.
pub proof fn law_revoke_leaves_other_clients_tokens(
    s: ServerView,
    token: Seq<char>,
    id: Seq<char>,
    secret: Option<Seq<char>>,
)
    requires
        revoke_outcome(s, token, id, secret).1 is Ok,
        (s.access.dom().contains(token) && s.access[token].client_id != id) || (s.refresh.dom().contains(token)
            && s.refresh[token].client_id != id),
    ensures
        revoke_outcome(s, token, id, secret).0 == s,
{
}

/// Unregistering a client leaves none of its access tokens live.
pub proof fn law_unregister_kills_client_tokens(s: ServerView, id: Seq<char>, token: Seq<char>, now: nat)
    requires
        unregister_outcome(s, id).1 is Ok,
        s.access.dom().contains(token),
        s.access[token].client_id == id,
    ensures
        live_access_token(unregister_outcome(s, id).0, token, now) is None,
        unregister_outcome(s, id).0.revoked.contains(token),
{
    assert(tokens_of_client(s.access, id).contains(token));
}

/// Registering a client makes it readable under its ID, unchanged.
pub proof fn law_register_then_read(s: ServerView, cfg: OAuthServerConfig, c: ClientView)
    requires
        register_outcome(s, cfg, c).1 is Ok,
    ensures
        register_outcome(s, cfg, c).0.clients.dom().contains(c.client_id),
        register_outcome(s, cfg, c).0.clients[c.client_id] == c,
{
}

/// Registering and then unregistering a new client leaves the client table
/// as it was.
pub proof fn law_register_unregister_roundtrip(s: ServerView, cfg: OAuthServerConfig, c: ClientView)
    requires
        register_outcome(s, cfg, c).1 is Ok,
    ensures
        unregister_outcome(register_outcome(s, cfg, c).0, c.client_id).1 is Ok,
        unregister_outcome(register_outcome(s, cfg, c).0, c.client_id).0.clients =~= s.clients,
{
}

/// Cleaning up keeps every access token that is live at the time of the
/// clean-up, and removes every one that has expired.
pub proof fn law_cleanup_keeps_live_tokens(s: ServerView, now: nat, token: Seq<char>)
    ensures
        live_access_token(cleanup_outcome(s, now), token, now) == live_access_token(s, token, now),
{
}

/// A failed authorization request changes nothing.
pub proof fn law_rejected_authorization_changes_nothing(
    s: ServerView,
    cfg: OAuthServerConfig,
    req: AuthRequestView,
    subject: Option<Seq<char>>,
    code: Result<Seq<char>, ErrorView>,
    now: nat,
)
    requires
        authorize_outcome(s, cfg, req, subject, code, now).1 is Err,
    ensures
        authorize_outcome(s, cfg, req, subject, code, now).0 == s,
{
}

/// A code issued by an accepted authorization request can be exchanged with
/// the matching plain verifier by a public client, at any time before it
/// expires, where the fresh tokens could be drawn.
pub proof fn law_authorize_then_exchange(
    s: ServerView,
    cfg: OAuthServerConfig,
    req: AuthRequestView,
    subject: Option<Seq<char>>,
    code: Seq<char>,
    now: nat,
    treq: TokenRequestView,
    later: nat,
    a: Seq<char>,
    b: Seq<char>,
)
    requires
        authorize_outcome(s, cfg, req, subject, Ok(code), now).1 is Ok,
        req.code_challenge_method == CodeChallengeMethod::Plain,
        s.clients[req.client_id].client_type == ClientType::Public,
        treq.grant_type == "authorization_code"@,
        treq.code == Some(code),
        treq.redirect_uri == Some(req.redirect_uri),
        treq.client_id == req.client_id,
        treq.code_verifier == Some(req.code_challenge),
        cfg.min_code_verifier_length <= vstd::utf8::encode_utf8(req.code_challenge).len()
            <= cfg.max_code_verifier_length,
        now <= later < expiry(now, cfg.authorization_code_lifetime@),
    ensures
        token_outcome(authorize_outcome(s, cfg, req, subject, Ok(code), now).0, cfg, treq, later, Ok(a), Ok(b)).1
            is Ok,
{
}


/// A refresh grant issues a new access token and no new refresh token: the
/// refresh token stays as it was (no rotation), and the new access token is
/// live until it expires (unless its value was revoked before) for the same
/// client and subject, with the requested scopes or else the granted ones.
pub proof fn law_refresh_then_validate(
    s: ServerView,
    cfg: OAuthServerConfig,
    req: TokenRequestView,
    now: nat,
    a: Seq<char>,
    b: Result<Seq<char>, ErrorView>,
    later: nat,
)
    requires
        req.grant_type == "refresh_token"@,
        token_outcome(s, cfg, req, now, Ok(a), b).1 is Ok,
        !s.revoked.contains(a),
        now <= later < expiry(now, cfg.access_token_lifetime@),
    ensures
        ({
            let out = token_outcome(s, cfg, req, now, Ok(a), b);
            let st = s.refresh[req.refresh_token->0];
            let scopes = match req.scopes {
                Some(q) => q,
                None => st.scopes,
            };
            &&& out.1->Ok_0.access_token == a
            &&& out.1->Ok_0.refresh_token is None
            &&& out.1->Ok_0.token_type == "bearer"@
            &&& out.1->Ok_0.scope == scope_field(scopes)
            &&& out.0.refresh == s.refresh
            &&& live_access_token(out.0, a, later) matches Some(t) && t.client_id == req.client_id
                && t.subject == st.subject && t.scopes == scopes && !t.is_refresh_token
        }),
{
    reveal_strlit("refresh_token");
    reveal_strlit("authorization_code");
    assert(token_outcome(s, cfg, req, now, Ok(a), b) == refresh_outcome(s, cfg, req, now, Ok(a)));
}

/// The code of an accepted authorization request, exchanged by its client
/// (public, or presenting its secret) at its redirect URI with a verifier
/// that answers its challenge, before it expires, gives a bearer access token
/// and a refresh token; the code is no longer pending, and the access token
/// is live until it expires (unless its value was revoked before) for that
/// client and subject, with the requested scopes.
pub proof fn law_authorize_token_validate(
    s: ServerView,
    cfg: OAuthServerConfig,
    req: AuthRequestView,
    subject: Option<Seq<char>>,
    code: Seq<char>,
    now: nat,
    treq: TokenRequestView,
    later: nat,
    a: Seq<char>,
    b: Seq<char>,
    check: nat,
)
    requires
        authorize_outcome(s, cfg, req, subject, Ok(code), now).1 is Ok,
        treq.grant_type == "authorization_code"@,
        treq.code == Some(code),
        treq.redirect_uri == Some(req.redirect_uri),
        treq.client_id == req.client_id,
        treq.code_verifier is Some,
        verifier_matches(new_code(cfg, req, subject, code, now), treq.code_verifier->0),
        cfg.min_code_verifier_length <= vstd::utf8::encode_utf8(treq.code_verifier->0).len()
            <= cfg.max_code_verifier_length,
        s.clients[req.client_id].client_type == ClientType::Public || client_authenticates(
            s.clients[req.client_id],
            treq.client_secret,
        ),
        now <= later < expiry(now, cfg.authorization_code_lifetime@),
        !s.revoked.contains(a),
        later <= check < expiry(later, cfg.access_token_lifetime@),
    ensures
        ({
            let s1 = authorize_outcome(s, cfg, req, subject, Ok(code), now).0;
            let out = token_outcome(s1, cfg, treq, later, Ok(a), Ok(b));
            &&& out.1 is Ok
            &&& out.1->Ok_0.access_token == a
            &&& out.1->Ok_0.refresh_token == Some(b)
            &&& out.1->Ok_0.token_type == "bearer"@
            &&& out.1->Ok_0.scope == scope_field(req.scopes)
            &&& !out.0.codes.dom().contains(code)
            &&& live_access_token(out.0, a, check) matches Some(t) && t.client_id == req.client_id
                && t.subject == subject && t.scopes == req.scopes && !t.is_refresh_token
        }),
{
    reveal_strlit("authorization_code");
    let s1 = authorize_outcome(s, cfg, req, subject, Ok(code), now).0;
    assert(s1.codes[code] == new_code(cfg, req, subject, code, now));
    assert(s1.clients == s.clients);
}

/// An exchange that names a pending code with all parameters present and a
/// verifier of legal length consumes the code even where it is refused
/// because of the client, the redirect URI or the verifier: a later request
/// for the code is refused as an invalid grant.  A request refused for a
/// missing parameter or a verifier of illegal length leaves the code pending.
pub proof fn law_code_consumed_on_mismatch(
    s: ServerView,
    cfg: OAuthServerConfig,
    req: TokenRequestView,
    now: nat,
    a: Result<Seq<char>, ErrorView>,
    b: Result<Seq<char>, ErrorView>,
    req2: TokenRequestView,
    now2: nat,
    a2: Result<Seq<char>, ErrorView>,
    b2: Result<Seq<char>, ErrorView>,
)
    requires
        req.grant_type == "authorization_code"@,
        req.code is Some,
        s.codes.dom().contains(req.code->0),
        req2.grant_type == "authorization_code"@,
        req2.code == req.code,
        req2.redirect_uri is Some,
        req2.code_verifier is Some,
        cfg.min_code_verifier_length <= vstd::utf8::encode_utf8(req2.code_verifier->0).len()
            <= cfg.max_code_verifier_length,
    ensures
        ({
            let c = s.codes[req.code->0];
            let legal = req.redirect_uri is Some && req.code_verifier is Some && cfg.min_code_verifier_length
                <= vstd::utf8::encode_utf8(req.code_verifier->0).len() <= cfg.max_code_verifier_length;
            let out = token_outcome(s, cfg, req, now, a, b);
            &&& legal && now < c.expires_at && (c.client_id != req.client_id || c.redirect_uri != req.redirect_uri->0
                || !verifier_matches(c, req.code_verifier->0)) ==> (out.1 matches Err(e) && e.0
                == OAuthErrorKind::InvalidGrant && token_outcome(out.0, cfg, req2, now2, a2, b2).1
                == Err::<ResponseView, ErrorView>(
                (OAuthErrorKind::InvalidGrant, "authorization code not found or already used"@),
            ))
            &&& !legal ==> out.0 == s
        }),
{
    reveal_strlit("authorization_code");
    let code = req.code->0;
    let s1 = ServerView { codes: s.codes.remove(code), ..s };
    assert(!s1.codes.dom().contains(code));
}

/// Unregistering a client removes it, its pending codes and its tokens; its
/// tokens are revoked, so none is live and none can be refreshed; the
/// clients, codes and tokens of other clients stay as they were.
pub proof fn law_unregister_then(
    s: ServerView,
    id: Seq<char>,
    now: nat,
    cfg: OAuthServerConfig,
    req: TokenRequestView,
    a: Result<Seq<char>, ErrorView>,
    b: Result<Seq<char>, ErrorView>,
)
    requires
        unregister_outcome(s, id).1 is Ok,
    ensures
        ({
            let out = unregister_outcome(s, id).0;
            &&& !out.clients.dom().contains(id)
            &&& forall|k: Seq<char>| k != id && s.clients.dom().contains(k) ==> #[trigger] out.clients.dom().contains(k)
                && out.clients[k] == s.clients[k]
            &&& forall|k: Seq<char>| #[trigger] s.access.dom().contains(k) && s.access[k].client_id == id ==> (
            out.revoked.contains(k) && live_access_token(out, k, now) is None)
            &&& forall|k: Seq<char>| #[trigger] s.refresh.dom().contains(k) && s.refresh[k].client_id == id
                ==> out.revoked.contains(k)
            &&& forall|k: Seq<char>| #[trigger] s.access.dom().contains(k) && s.access[k].client_id != id
                ==> out.access.dom().contains(k) && out.access[k] == s.access[k]
            &&& forall|k: Seq<char>| #[trigger] s.refresh.dom().contains(k) && s.refresh[k].client_id != id
                ==> out.refresh.dom().contains(k) && out.refresh[k] == s.refresh[k]
            &&& forall|k: Seq<char>| #[trigger] s.codes.dom().contains(k) ==> (out.codes.dom().contains(k) <==> s.codes[k].client_id
                != id)
            &&& (req.grant_type == "refresh_token"@ && req.refresh_token is Some && s.refresh.dom().contains(
                req.refresh_token->0,
            ) && s.refresh[req.refresh_token->0].client_id == id) ==> token_outcome(out, cfg, req, now, a, b).1 == Err::<
                ResponseView,
                ErrorView,
            >((OAuthErrorKind::InvalidGrant, "refresh token has been revoked"@))
        }),
{
    reveal_strlit("refresh_token");
    reveal_strlit("authorization_code");
    let out = unregister_outcome(s, id).0;
    assert forall|k: Seq<char>| #[trigger] s.access.dom().contains(k) && s.access[k].client_id == id implies (
    out.revoked.contains(k) && live_access_token(out, k, now) is None) by {
        assert(tokens_of_client(s.access, id).contains(k));
    }
    assert forall|k: Seq<char>| #[trigger] s.refresh.dom().contains(k) && s.refresh[k].client_id == id implies out.revoked.contains(
        k,
    ) by {
        assert(tokens_of_client(s.refresh, id).contains(k));
    }
    assert forall|k: Seq<char>| #[trigger] s.codes.dom().contains(k) implies (out.codes.dom().contains(k)
        <==> s.codes[k].client_id != id) by {
        if s.codes[k].client_id == id {
            assert(codes_of_client(s.codes, id).contains(k));
        }
    }
    if req.grant_type == "refresh_token"@ && req.refresh_token is Some {
        let t = req.refresh_token->0;
        if s.refresh.dom().contains(t) && s.refresh[t].client_id == id {
            assert(tokens_of_client(s.refresh, id).contains(t));
            assert(token_outcome(out, cfg, req, now, a, b) == refresh_outcome(out, cfg, req, now, a));
        }
    }
}

/// After a client revokes a token it holds, the token is recorded as
/// revoked, is live at no time and can no longer be refreshed; every other
/// token stays as it was.
pub proof fn law_revoke_then(
    s: ServerView,
    token: Seq<char>,
    id: Seq<char>,
    secret: Option<Seq<char>>,
    now: nat,
    cfg: OAuthServerConfig,
    req: TokenRequestView,
    a: Result<Seq<char>, ErrorView>,
    b: Result<Seq<char>, ErrorView>,
)
    requires
        revoke_outcome(s, token, id, secret).1 is Ok,
        s.access.dom().contains(token) || s.refresh.dom().contains(token),
        s.access.dom().contains(token) ==> s.access[token].client_id == id,
        s.refresh.dom().contains(token) ==> s.refresh[token].client_id == id,
    ensures
        ({
            let out = revoke_outcome(s, token, id, secret).0;
            &&& out.revoked.contains(token)
            &&& live_access_token(out, token, now) is None
            &&& out.access == s.access.remove(token)
            &&& out.refresh == s.refresh.remove(token)
            &&& out.clients == s.clients && out.codes == s.codes
            &&& req.grant_type == "refresh_token"@ && req.refresh_token == Some(token) ==> token_outcome(
                out,
                cfg,
                req,
                now,
                a,
                b,
            ).1 == Err::<ResponseView, ErrorView>(
                (OAuthErrorKind::InvalidGrant, "refresh token has been revoked"@),
            )
        }),
{
    reveal_strlit("refresh_token");
    reveal_strlit("authorization_code");
    let out = revoke_outcome(s, token, id, secret).0;
    if req.grant_type == "refresh_token"@ {
        assert(token_outcome(out, cfg, req, now, a, b) == refresh_outcome(out, cfg, req, now, a));
    }
}

/// A clean-up keeps only the codes and tokens that have not expired, leaves
/// clients and revoked values alone, and so never grows a count.
pub proof fn law_cleanup_bounds(s: ServerView, now: nat)
    requires
        s.codes.dom().finite(),
        s.access.dom().finite(),
        s.refresh.dom().finite(),
    ensures
        ({
            let out = cleanup_outcome(s, now);
            &&& out.clients == s.clients && out.revoked == s.revoked
            &&& forall|k: Seq<char>| #[trigger] out.codes.dom().contains(k) <==> s.codes.dom().contains(k) && now
                < s.codes[k].expires_at
            &&& forall|k: Seq<char>| #[trigger] out.access.dom().contains(k) <==> s.access.dom().contains(k) && now
                < s.access[k].expires_at
            &&& forall|k: Seq<char>| #[trigger] out.refresh.dom().contains(k) <==> s.refresh.dom().contains(k) && now
                < s.refresh[k].expires_at
            &&& forall|k: Seq<char>| #[trigger] out.access.dom().contains(k) ==> out.access[k] == s.access[k]
            &&& out.codes.dom().len() <= s.codes.dom().len()
            &&& out.access.dom().len() <= s.access.dom().len()
            &&& out.refresh.dom().len() <= s.refresh.dom().len()
        }),
{
    let out = cleanup_outcome(s, now);
    vstd::set_lib::lemma_len_subset(out.codes.dom(), s.codes.dom());
    vstd::set_lib::lemma_len_subset(out.access.dom(), s.access.dom());
    vstd::set_lib::lemma_len_subset(out.refresh.dom(), s.refresh.dom());
}

/// A redirect URI that carries userinfo is allowed only as an exact match of
/// a registered URI, never as a loopback URI that differs in the port.
pub proof fn law_userinfo_redirect_exact_only(allowed: Seq<Seq<char>>, uri: Seq<char>)
    requires
        uri_has_userinfo(uri),
    ensures
        redirect_allowed(allowed, uri) == allowed.contains(uri),
{
}

/// Registering and unregistering keep every client under its own ID.
pub proof fn law_clients_stay_keyed(s: ServerView, cfg: OAuthServerConfig, c: ClientView, id: Seq<char>)
    requires
        clients_keyed(s),
    ensures
        clients_keyed(register_outcome(s, cfg, c).0),
        clients_keyed(unregister_outcome(s, id).0),
{
}

/// The remaining lifetime is counted in whole seconds: at `now` before
/// `expires_at`, the count of seconds times a billion nanoseconds does not
/// exceed the time left, and one second more would (unless the count is
/// capped at the largest `u64`); once expired, it is zero.
pub proof fn law_expires_in_whole_seconds(expires_at: nat, now: nat)
    ensures
        expires_at >= now ==> secs_until(expires_at, now) * 1_000_000_000 <= expires_at - now,
        expires_at >= now && secs_until(expires_at, now) < u64::MAX ==> expires_at - now < (secs_until(
            expires_at,
            now,
        ) + 1) * 1_000_000_000,
        expires_at < now ==> secs_until(expires_at, now) == 0,
{
    if expires_at >= now {
        let d = (expires_at - now) as nat;
        let q = d / 1_000_000_000;
        assert(q * 1_000_000_000 <= d && d < (q + 1) * 1_000_000_000) by (nonlinear_arith)
            requires
                q == d / 1_000_000_000,
        ;
    }
}

/// A token issued at `now` with a lifetime of `secs` whole seconds reports
/// `secs` seconds left at the instant of issue.
pub proof fn law_expires_in_at_issue(now: nat, secs: u64)
    requires
        now + secs * 1_000_000_000 <= u128::MAX,
    ensures
        secs_until(expiry(now, secs as nat * 1_000_000_000nat), now) == secs,
{
    assert((secs * 1_000_000_000) / 1_000_000_000 == secs as int) by (nonlinear_arith);
}

/// Joining by spaces splits at a space: the join of two non-empty lists
/// put one after the other is the join of the first, one space, and the join
/// of the second.
pub proof fn law_space_joined_concat(a: Seq<Seq<char>>, b: Seq<Seq<char>>)
    requires
        a.len() > 0,
        b.len() > 0,
    ensures
        space_joined(a + b) == space_joined(a) + " "@ + space_joined(b),
    decreases b.len(),
{
    if b.len() == 1 {
        assert((a + b).drop_last() =~= a);
        assert((a + b).last() == b[0]);
    } else {
        law_space_joined_concat(a, b.drop_last());
        assert((a + b).drop_last() =~= a + b.drop_last());
        assert((a + b).last() == b.last());
        assert(space_joined(a) + " "@ + space_joined(b.drop_last()) + " "@ + b.last() =~= space_joined(a) + " "@
            + (space_joined(b.drop_last()) + " "@ + b.last()));
    }
}

/// The join of one text is the text, and the join of two texts is the first,
/// one space and the second.
pub proof fn law_space_joined_pair(a: Seq<char>, b: Seq<char>)
    ensures
        space_joined(seq![a]) == a,
        space_joined(seq![a, b]) == a + " "@ + b,
{
    assert(seq![a, b].drop_last() =~= seq![a]);
}

} // verus!
