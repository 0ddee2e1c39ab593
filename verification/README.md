# flagfile_cli

The core of the Flagfile command-line tool (`ff`), written in Verus: each
function carries a `requires`/`ensures` contract over a mathematical model
(`Seq<char>` for text, `Seq` of views for collections), and Verus proves the
code against it.

## Layout

- `src/text.rs`, `src/num.rs`: string and number primitives with their
  specifications (`trim`, `lines`, `find`, `i64` parsing, ...).
- `src/formatter/`: `ff fmt` — line classification, normalization of operators,
  booleans and JSON values, the indentation pass, and the unified diff.
  `formatter::comments` proves that every comment line survives formatting;
  `formatter::spaces` proves that space collapsing removes only spaces and
  that collapsing twice changes nothing.
- `src/lint/`: every lint check of `ff lint`, each with an exact description
  of its findings; `lint::graph` finds dependency cycles and is proved to
  report one exactly when the graph has a cycle.
- `src/evaluate.rs`, `src/test_line.rs`: evaluation of pre-evaluated rules
  (with or without the reason for the value), test files and `@test`
  annotations for `ff test`.
- `src/find.rs`: `ff find` — the search pattern, matching file text (through
  `regex`), reference counts and their ranking, matching files and lines,
  and unused flags.
- `src/auth.rs`, `src/config.rs`, `src/remote.rs`, `src/types.rs`: the
  server's token checks, environment overrides and configuration types.
- `src/server.rs`: the decisions of the server's request handlers —
  namespace and token checks (single-tenant mode is proved open to every
  request), the write route of a push, readiness, evaluation answers, and
  cluster start-up (voter ids, ticks, the staggered first election).
- `src/raft_storage.rs`: the in-memory Raft log store, with laws relating
  appends, snapshots and compaction.
- `src/launchdarkly.rs`, `src/remote.rs`: the request bodies and patches
  sent when pushing flags to LaunchDarkly, and the checks and choices made
  before and during a push.
- `app/`: the command-line program (argument parsing, file and terminal
  I/O, directory walking) around the library.
- `tests/`: tests run against the compiled library.

Calls into outside crates (`serde_json`, `chrono`, `regex`) go through small
wrappers marked `#[verifier::external_body]`, each documented with what its
contract claims.
