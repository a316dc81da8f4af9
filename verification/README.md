# grand_pattern_bench

A conservation-law benchmark for a double-entry ledger of perceptions and
predictions, split into a verified library and a small program around it.

- `src/` (verified with Verus)
  - `ledger.rs`: the two-column ledger of a room; `record` enters one
    perception and one prediction, `collect` drops the entries marked as below
    the magnitude threshold. Laws: balance under recording, collection never
    grows a column, keeps exactly the entries that pass, is idempotent, and in
    a column that already passes only ever drops the newest entry.
  - `window.rs`: the positions, most recent first, that the moving-average
    predictor averages.
  - `pairs.rs`: the room pairs `i < j` compared for vibe convergence, with
    their count `n (n - 1) / 2` and exact membership.
  - `tally.rs`: room-tick and violation counts of a run; the room-tick total
    with overflow reported as `None`.
  - `report.rs`: the positions of results sharing a dimension or window.
- `app/main.rs`: the benchmark runner. Everything there is `f64` work
  (sin-based perceptions, averages, magnitudes, distances, cosine
  similarity), printing and writing `CONCLUSIONS.md`.
- `tests/`: tests of the library on concrete values.
