# kebab

Chunking, configuration and command-line logic of a local knowledge-base
indexer, written in Verus and verified.

## Layout

- `src/` — the verified library.
  - `model.rs` — documents, blocks, chunks and chunking policies.
  - `md_heading.rs`, `md_heading_v2.rs` — heading-aware Markdown chunkers
    (v2 adds the oversize split post-pass); `oversize.rs` — line-then-char
    splitting under a token budget; `render.rs` — the text of each block.
  - `pdf_page.rs` — page-bounded PDF chunking with sentence-aware cuts and
    overlap.
  - `code_ts_ast.rs`, `code_text_paragraph.rs`, `k8s_manifest.rs`,
    `manifest_file.rs`, `tier2.rs` — source-code and manifest chunkers.
  - `hashing.rs` — policy hashes and chunk identifiers (BLAKE3 over
    canonical JSON); `chunk_ids.rs` — why chunks cut from the same blocks
    get digests of different inputs; `korean.rs` — morphological tokenization for lexical
    search with lindera's embedded ko-dic dictionary (lindera's
    `embed-ko-dic` feature, which fetches the dictionary when lindera is
    built; without it the tokenizer returns `None`).
  - `config.rs`, `paths.rs` — configuration defaults, `KEBAB_*`
    environment overrides and path templates; `migrate.rs` — schema
    migration of `config.toml` to version 5 with `toml_edit`, keeping the
    user's values and comments.
  - `progress.rs`, `ingest_progress.rs` — the ingest progress display as a
    state machine; `error_classify.rs` — `error.v1` reports and exit codes;
    `cli.rs` — flag parsing, prompts and the Ctrl-C policy; `command.rs`
    — which subcommands write to the store; `plain.rs` — the plain-text
    output of `fetch`, `ask` and `schema`.
- `tests/` — tests run against the compiled library.
- `app/` — the `kebab` binary around the library: file and terminal I/O,
  the TOML (serde) form of the configuration, `indicatif` rendering,
  signal handling.
