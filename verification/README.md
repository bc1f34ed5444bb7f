# lokb

A local, offline knowledge base: public data (Wikipedia ZIM dumps,
Wikidata, books, papers) and personal data (notes, chats, mail, photos,
GPS tracks, browser history) in one store, with full-text search, exact
substring search and a knowledge graph.

## Layout

- `src/` — the library, verified with Verus. Every parser, the chunker,
  the content and bundle stores, the catalog decisions of `source
  add/update/status/delete/list`, storage accounting, fact questions,
  the substring index, the MCP routing, the viewer's key handling and the
  parallel ingestion's block decisions are functions with `requires` /
  `ensures` contracts. Laws that relate several calls are public proof
  functions (`lemma_*`), among them:
  - `bundle::lemma_read_after_write`, `bundle::lemma_write_keeps_others`
  - `sources::lemma_export_keeps_personal_out`, `sources::lemma_export_all`
  - `sources::lemma_update_rerun_unchanged`, `sources::lemma_counts_cover`
  - `substring::lemma_gather_one_per_document`, `substring::lemma_hit_in_document`
  - `telegram::lemma_segments_partition`, `chunker::lemma_chunks_numbered`
  - `parallel::lemma_blocks_after_stream`
  - `html::lemma_strip_tags`, `content::lemma_source_size_within_total`,
    `substring::lemma_built_corpus_is_terminated`
- `tests/` — tests of the library on concrete values.
- `app/` — the `lokb` program: command line, files, SQLite catalog,
  Tantivy index, HTTP and MCP servers, terminal viewer and the threads of
  the ZIM pipeline. It reads and writes; the library decides.

Calls into outside crates that compute (BLAKE3, zstd, xz, zip,
mail-parser, fm-index, serde_json, chrono, uuid) stay in the library
behind small trusted wrappers whose contracts name what the call
returns. htmd, which can panic on malformed HTML, is called by the
program, which catches the unwind and hands the conversion to the
library.
