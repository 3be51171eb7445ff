# memkeeper_store

The logic of a local memory store, verified with Verus: what is written when a
memory is remembered, forgotten or superseded, how searches are phrased and
ranked, how packs are assembled within their budget, how a graph of entities is
kept and walked, how documents are ingested, and how a store is exported,
imported and consolidated.

- `src/` is the verified library. Its functions take a request and what was read
  from the store, and return a plan, a statement or a report. Each has a contract;
  laws that relate several functions are proof functions whose names begin with
  `law_`.
- `app/` opens SQLite databases, runs the statements, performs the plans, and
  computes floating-point scores.
- `tests/` runs the library on concrete values.

Scores are real numbers that the library only compares. It holds each by its
place in the order of real numbers (`ranking::Score`); `app/scores.rs` converts.

What the library takes from outside is declared in a few trusted items: JSON
texts through serde_json (`src/json.rs`), UTF-8 decoding (`src/records.rs`),
lower case and character classes (`src/paths.rs`, `src/terms.rs`), and appending to
strings (`src/text.rs`).
