# fastmcp-server

Server-side logic for the Model Context Protocol, verified with Verus:
an OAuth 2.1 authorization server with PKCE, an OpenID Connect layer that
issues HS256 ID tokens, sliding-window rate limiting, the request router
(registration, tag filters, paged listings, URI templates, mounting), MCP
sessions and the naming rules of proxying a remote server.

## Layout

- `src/` — the verified library.
  - `text`, `store`, `time`, `crypto` — character helpers, insertion-ordered
    string maps and sets, instants and durations, and the calls into
    `base64`, `sha2`, `hmac` and `getrandom`.
  - `json` — flat JSON objects of strings and numbers (a JWT header, a list
    cursor), written and read through `serde_json`.
  - `oauth`, `oauth_laws`, `token_auth`, `mcp` — the authorization server,
    the properties it keeps across operations, bearer-token verification and
    MCP error replies.
  - `oidc` — claims, discovery, ID token preparation and signing.
  - `rate_limiting` — sliding-window limiting per client.
  - `router` — tag filters, percent-decoding, URI templates, cursors and
    pages, the registry of tools, resources, templates and prompts, template
    resolution and mounting.
  - `session`, `proxy` — session state and subscriptions; the proxy catalog
    and the names and URIs of proxied components.
- `tests/` — tests of the library's behaviour on concrete values.
- `app/` — what stands outside the library: serde wire types, the token
  bucket limiter (floating point), JSON writing of ID token claims, delivery
  of session notifications and the shared proxy client.
