# bouncer

A small allowlist-based reverse proxy. Requests to `/<alias>/<path>` (or with
an `x-bouncer-host: <alias>` header) are forwarded over HTTPS to the host that
the allowlist maps `<alias>` to; unlisted aliases get `403`, targets marked
`auth = true` need a valid HS256 token in `x-bouncer-token`.

Layout:

- `src/` — the verified library (Verus):
  - `text.rs`: trimming, stripping, splitting and comparing string slices;
  - `routing.rs`: which alias a request names and which path it forwards;
  - `headers.rs`: reading header values out of `http`'s header map;
  - `auth.rs`: the secret, the token header and the signature check;
  - `allowlist.rs`: the allowlist map, the fail-closed check, reload rules;
  - `proxy.rs`: the per-request decision, forwarded headers, replies.
- `app/` — the server around it: configuration file parsing, file watching,
  the hyper server and client, logging.
- `tests/` — tests of the library.
