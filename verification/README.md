# kb_core

A local knowledge base of curated vulnerability findings, shared by a
design-review pipeline and an audit pipeline, with its behaviour specified
and proved in Verus.

Three layers:

1. **Raw cache** (`src/raw.rs`): search results stored per query
   fingerprint (`src/fingerprint.rs`), with a time-to-live; a fresh
   envelope is not ingested again, findings other than HIGH and MEDIUM are
   dropped, expired envelopes can be evicted.
2. **Curation** (`src/curate.rs`, `src/scoring.rs`, `src/order.rs`):
   deduplication by slug, earlier curation decisions restored (noise
   entries are kept, unscored, so the decision holds), relevance and
   confidence scored, and the HIGH and MEDIUM files
   rewritten in a stable order; curation updates and auditor feedback with
   pipeline confirmations.
3. **Queries** (`src/query.rs`): filters by tag, category and keyword
   (noise left out by default), ranking by severity then curation rank or,
   for a pipeline, with context at its level first, and a budget.

`src/store.rs` holds the files of a knowledge-base directory as values; the
program in `app/` loads a directory into a store, runs one operation per
tool call of its MCP server, and writes back the files that changed.
`src/laws.rs` states and proves the properties that relate operations
(reads give back writes, re-ingestion, eviction, what a curation pass keeps,
how answers are ordered and cut).

Scores are fixed-point integers in millionths of `1.0`; instants are seconds
and nanoseconds since the Unix epoch.
