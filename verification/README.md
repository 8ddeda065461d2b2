# autoreply

A Bluesky (AT Protocol) profile and post search tool, usable as a Model
Context Protocol server on stdio or as a command-line program. The logic is a
library verified with Verus; a thin program around it does the I/O.

## Layout

- `src/` — the verified library.
  - `car/` — CAR archives: varints, CIDs, multihashes, base32, DAG-CBOR
    values, the archive header and its blocks, and the AT Protocol records in
    an archive.
  - `bluesky/` — DID and handle rules and the PDS discovery state machine,
    post URIs, the Merkle search tree (record keys of a repository), record
    types with their searchable text and Markdown rendering, and the names
    and errors of repository downloads, and the cached repository fetch as
    a step function.
  - `search/` — query parsing, exact and fuzzy matching (scores from
    `nucleo-matcher`), and where a match lies among the words.
  - `auth/` — the account configuration, the credential bookkeeping, the
    choice between the OS keyring and the credentials file and that file's
    contents as a value, the login decisions, app-password credentials, the OAuth PKCE request and
    the AT Protocol OAuth flow (metadata discovery, pushed authorization,
    the DPoP nonce retry, the callback and the token exchange) as step
    functions the program drives.
  - `cache.rs`, `http.rs`, `cli.rs`, `mcp.rs`, `error.rs` — cache layout and
    freshness, proxy selection, command-line arguments and exit codes,
    JSON-RPC error codes, and the errors with input validation.
  - `text.rs`, `strings.rs` — character-level string operations the rest is
    stated over.
- `tests/` — the test suite, run against the compiled library.
- `app/` — the program: argument parsing, the stdio server, HTTP, the OS
  keyring, the configuration and cache files, serde encodings of the record
  types, and result ranking with floating-point scores.

The public functions of the library state in their contracts what they
return, with these limits: results read from the clock or drawn at random
are only described, not fixed; highlighting and post rendering are stated
where the text can be cut at the match positions, and the `_checked`
variants say `None` elsewhere; `FuzzyMatcher::new` builds the matcher with
the default configuration and states nothing more. Where an outside crate
computes a result, a small trusted wrapper states or names it and its doc
comment says what is assumed.

The OAuth browser sign-in signs its DPoP proofs (ES256) with `ring` in the
program. Without a usable OS keyring, credentials go to
`autoreply/credentials.json` in the user's configuration directory (mode
0600 on Unix). Not provided: posting and reacting, which need an
authenticated session this client does not keep; stored sessions carry no
expiry time.
