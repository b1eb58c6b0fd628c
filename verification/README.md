# SQLite Workload Lab

A verified library and a thin command line for reproducible SQLite workload
evidence: pinned manifests, CPU-profile checks, repeated timings with result
digests, JSON and Markdown reports, and a regression comparator for CI.

## Layout

- `src/` — the library, verified with Verus.
  - `manifest.rs`: the workload manifest, its structural and pin validation,
    profile lookup and CPU feature normalization.
  - `runner.rs`: timing summaries, `/proc/cpuinfo` parsing, profile matching,
    result encoding and digests, the per-query measurement state machine and
    report assembly.
  - `report.rs`: report types and their Markdown rendering.
  - `compare.rs`: baseline/candidate comparison and its Markdown rendering.
  - `status.rs`: the command messages and the comparison's exit status.
  - `text.rs`, `order.rs`, `digest.rs`, `paths.rs`, `sqlite.rs`: text
    handling, sorted name lists, SHA-256 hex digests, path operations, the
    linked SQLite version and the read-only scan that `check` runs on a
    scratch in-memory database, with a record of what was handed to SQLite.
- `tests/` — tests of the library.
- `app/` — the `sqlite-workload-lab` binary: argument parsing, files, TOML and
  JSON, SQLite execution and exit codes (0 success, 1 error, 2 regression).

Thresholds and changes are held in hundredths of a percent inside the library,
which compares them exactly and rounds the change half away from zero; the
command line reads the threshold as a percentage rounded to hundredths, and
prints each change as the f64 percentage rounded to hundredths.
