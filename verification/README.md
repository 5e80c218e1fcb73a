# piui

The host-side core of PiUI, a local desktop interface for browsing and
continuing Pi sessions, written in Verus: every function in `src/` carries a
`requires`/`ensures` contract that Verus proves.

## Layout

- `src/` — the verified library.
  - `scanner`, `scan`, `semantic`, `display`, `redact`, `tree`, `report`,
    `report_ops`, `timeline`: bounded, read-only projections of Pi JSONL
    session files (revision digest, metadata, display blocks, session tree,
    timeline slices) and path redaction of display text.
  - `catalog`, `catalog_stream`, `discovery`, `discovery_walk`, `host_file`,
    `registry`: the session catalog — streamed discovery evidence, bounded
    identity-bound rescans, and the decisions of the SQLite index.
  - `host_state`, `watch`: catalog refresh freshness and sequencing, timeline
    cursors, session-root watching.
  - `api`: the host API's values and checks (DTOs, errors, preferences,
    timeline pages, runtime snapshots, the deterministic fixture runtime).
  - `extensions`, `contributions`: read-only validation of extension
    manifests and the declarative contribution catalog.
  - `contracts`, `prefs`, `json`, `text`, `assoc`, `sorting`: shared models
    and helpers.
- `tests/` — tests of the library.
- `app/` — the unverified host shell: file and directory I/O, SQLite,
  the filesystem watcher, and the command layer that drives the library.

Laws of the library stand in `src/` as public proof functions (their names
begin with `lemma_`), for example `host_state::lemma_cursor_lifetime`,
`host_state::lemma_sequences_increase`, `redact::lemma_redaction_leaves_no_path`
and `host_file::lemma_bounded_rescan`.
