# mie_decoder

A decoder library for DDC MIL-STD-1553 MIE binary recordings, written in
Verus. The functions in `src/` carry contracts that the verifier proves; the
few small wrappers around standard-library calls (`String::push`, `Debug`
formatting, upper-casing and `Path` operations) are marked
`#[verifier::external_body]`, and their contracts are trusted rather than
proved.

## Layout

- `src/models.rs`, `src/decode.rs` — the record model, field decoding,
  timestamps and the MUX column taken from a file name.
- `src/sync.rs` — record validation, the first-record scan and sync recovery.
- `src/writer.rs` — CSV fields and rows, output paths, and the decisions of a
  CSV run (pre-flight checks, the per-item run step, error routing, commit
  plans and the run's outcome).
- `src/filter.rs`, `src/order.rs`, `src/delta.rs`, `src/merge.rs` — filtering,
  canonical row order, per-command `DELTA`, and the multi-file merge with
  duplicate collapsing.
- `src/dump.rs` — raw and record-aware hex dumps.
- `src/toml_subset.rs`, `src/config.rs` — the configuration file's flat TOML
  subset and its schema, defaults and overrides.
- `src/cli.rs` — the command line's grammar, exit codes and exit classes.
- `src/text.rs`, `src/error.rs` — text rendering helpers and the error type.
- `app/` — the program around the library (`app/csv_out.rs` holds the temp
  files and commits of a CSV run): arguments, files, standard output
  and error, logging, and the floating-point tick-rate checks.

Laws that span several functions are public proof functions named `law_*`.
