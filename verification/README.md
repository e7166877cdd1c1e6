# hypomnema

Hypomnema makes a directory of Markdown notes searchable from the command
line and over HTTP: by file name, by content and by meaning. This crate is
its core, written in Verus. The functions in `src/` carry contracts that
Verus proves, except the small wrappers marked `#[verifier::external_body]`
that call outside crates (globset, pulldown-cmark, sha2, http, chrono,
tracing) or a few std functions: their contracts are trusted, each stating
what that crate's source shows, and the proofs above them rest on those
contracts.

## Layout

- `src/chunk.rs`, `src/diagnostics.rs`: heading-aware chunking of a note
  (front matter split off, chunks that tile the body, content hashes) and
  the per-chunk diagnostics of the debug report.
- `src/api/`: the HTTP surface's rules: error mapping, request validation,
  result merging and ordering across vaults, document grouping, the
  chunk-debug report, `/status` and `/health`, and the `Origin` check.
- `src/control_plane.rs`: vault names, name-or-id resolution with a
  "did you mean" hint, and the decisions behind create, pause, resume,
  reset, rename and startup reconciliation.
- `src/indexer.rs`, `src/walk.rs`: what a scan does with each file it
  walks, and which stored rows it deletes.
- `src/embedding.rs`: classification of embedding failures, checking and
  aligning batch responses, and the adaptive batch size.
- `src/config.rs`, `src/logging.rs`, `src/paths.rs`: configuration defaults
  and checks, log-filter composition, and Unix path components.
- `src/events.rs`: change events and the filtering of watch streams.
- `src/cli.rs`, `src/client_text.rs`: the client's commands and the text it
  prints.
- `app/`: the `hmn` client: argument parsing, reading the configuration,
  HTTP calls to the daemon, and printing.
- `tests/`: tests of the library, run against the real outside crates.

Laws that relate several functions are stated as public proof functions
whose names begin with `law_`.
