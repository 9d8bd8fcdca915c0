# open_gitea

The rules of a small self-hosted git forge, written in Verus and proved
against their contracts: who may view, download or push a repository
(private, public and group modes, shared group tokens, per-account grants,
the administrator and the demonstration login), request parsing (bearer and
basic credentials, group tokens, percent-decoding, repository and tree
paths, git smart-HTTP routes), the CGI output of `git http-backend`, issues,
accounts and access requests, reading release tags, and the decisions of
the browser front end.

Layout:

- `src/` — the verified library. `laws.rs` states the properties that span
  several operations, as proof functions.
- `tests/` — tests on concrete values.
- `app/` — the HTTP server around the library: files on disk, git
  processes, and serde copies of the stored types.
