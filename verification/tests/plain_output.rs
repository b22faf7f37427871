use kebab::command::{is_mutating, validate_query, Command, ModeFlag, SearchMode, TrustLevel, TrustLevelFlag};
use kebab::plain::{
    format_kind, print_schema_text, render_ask_plain_citations, render_fetch_plain, AskCitation, AskRetrieval,
    Capabilities, FetchKind, FetchResult, FetchedChunk, Models, SchemaV1, Stats, WireBlock,
};

fn retrieval() -> AskRetrieval {
    AskRetrieval { top_score: "0.80".to_string(), k: 5, chunks_used: 1, chunks_returned: 1 }
}

fn mk_citation(path: &str, stale: bool) -> AskCitation {
    AskCitation { marker: Some("1".to_string()), uri: path.to_string(), stale }
}

#[test]
fn plain_marks_stale_citation_no_color() {
    let out = render_ask_plain_citations(&vec![mk_citation("a.md", true)], &retrieval(), false);
    assert!(out.contains("[stale]"), "expected `[stale]` marker in plain output, got:\n{out}");
    assert!(!out.contains("\x1b["), "unexpected ANSI escape in non-color output:\n{out}");
}

#[test]
fn plain_marks_stale_citation_color_uses_yellow_ansi() {
    let out = render_ask_plain_citations(&vec![mk_citation("a.md", true)], &retrieval(), true);
    assert!(
        out.contains("\x1b[33m[stale]\x1b[0m"),
        "expected yellow [stale] ANSI sequence in color output, got:\n{out:?}"
    );
}

#[test]
fn plain_no_stale_tag_for_fresh_citation() {
    let out = render_ask_plain_citations(&vec![mk_citation("a.md", false)], &retrieval(), true);
    assert!(!out.contains("[stale]"), "unexpected `[stale]` marker for fresh citation:\n{out}");
}

#[test]
fn ask_citations_exact_text_with_default_markers() {
    let cs = vec![
        AskCitation { marker: None, uri: "a.md".to_string(), stale: false },
        AskCitation { marker: None, uri: "b.md".to_string(), stale: true },
        AskCitation { marker: Some("x".to_string()), uri: "c.md".to_string(), stale: false },
    ];
    let r = AskRetrieval { top_score: "0.42".to_string(), k: 10, chunks_used: 2, chunks_returned: 3 };
    assert_eq!(
        render_ask_plain_citations(&cs, &r, false),
        "\n근거:\n  [1] a.md\n  [2] [stale] b.md\n  [x] c.md\n(retrieval: top_score=0.42, k=10, used=2/3)\n"
    );
}

#[test]
fn ask_citations_none() {
    assert_eq!(
        render_ask_plain_citations(&vec![], &retrieval(), true),
        "\n근거:\n(retrieval: top_score=0.80, k=5, used=1/1)\n"
    );
}

#[test]
fn format_kind_labels() {
    assert_eq!(format_kind(FetchKind::Chunk), "chunk");
    assert_eq!(format_kind(FetchKind::Doc), "doc");
    assert_eq!(format_kind(FetchKind::Span), "span");
}

fn fc(id: &str, hp: &[&str], text: &str) -> FetchedChunk {
    FetchedChunk {
        chunk_id: id.to_string(),
        heading_path: hp.iter().map(|s| s.to_string()).collect(),
        text: text.to_string(),
    }
}

#[test]
fn fetch_plain_chunk_with_context() {
    let r = FetchResult {
        doc_path: "notes/a.md".to_string(),
        kind: FetchKind::Chunk,
        stale: true,
        indexed_at: "2024-01-02T03:04:05Z".to_string(),
        context_before: vec![fc("c0", &["Top", "Intro"], "before text")],
        chunk: Some(fc("c1", &[], "target text")),
        context_after: vec![],
        text: Some("ignored for chunks".to_string()),
        truncated: true,
    };
    let (out, note) = render_fetch_plain(&r);
    assert_eq!(
        out,
        "# notes/a.md (chunk)\n[stale; indexed_at = 2024-01-02T03:04:05Z]\n\n=== before ===\n[c0 § Intro]\nbefore text\n\n\n=== target ===\n[c1 § ]\ntarget text\n\n"
    );
    assert_eq!(note, "");
}

#[test]
fn fetch_plain_doc_truncated_notes_on_stderr() {
    let r = FetchResult {
        doc_path: "b.md".to_string(),
        kind: FetchKind::Doc,
        stale: false,
        indexed_at: "t".to_string(),
        context_before: vec![],
        chunk: None,
        context_after: vec![],
        text: Some("whole doc".to_string()),
        truncated: true,
    };
    let (out, note) = render_fetch_plain(&r);
    assert_eq!(out, "# b.md (doc)\n\nwhole doc\n");
    assert_eq!(note, "[truncated; widen --max-tokens for fuller text]\n");
}

#[test]
fn fetch_plain_span_without_text() {
    let r = FetchResult {
        doc_path: "c.md".to_string(),
        kind: FetchKind::Span,
        stale: false,
        indexed_at: "t".to_string(),
        context_before: vec![fc("x", &[], "y")],
        chunk: None,
        context_after: vec![],
        text: None,
        truncated: false,
    };
    assert_eq!(render_fetch_plain(&r), ("# c.md (span)\n".to_string(), String::new()));
}

fn schema(last: Option<&str>) -> SchemaV1 {
    SchemaV1 {
        kebab_version: "0.2.1".to_string(),
        wire: WireBlock { schemas: vec!["answer.v1".to_string(), "error.v1".to_string()] },
        capabilities: Capabilities {
            json_mode: true,
            ingest_progress: true,
            ingest_cancellation: true,
            rag_multi_turn: true,
            search_cache: true,
            incremental_ingest: true,
            streaming_ask: false,
            http_daemon: false,
            mcp_server: false,
            single_file_ingest: false,
            bulk_search: true,
        },
        models: Models {
            parser_version: "x".to_string(),
            chunker_version: "y".to_string(),
            embedding_version: "z".to_string(),
            prompt_template_version: "w".to_string(),
            index_version: "v".to_string(),
            corpus_revision: 7,
        },
        stats: Stats { doc_count: 1, chunk_count: 2, asset_count: 1, last_ingest_at: last.map(|s| s.to_string()) },
    }
}

#[test]
fn schema_text_exact() {
    let expected = "kebab v0.2.1\n\nwire schemas\n  answer.v1, error.v1\n\ncapabilities\n  ✓ json_mode\n  ✓ ingest_progress\n  ✓ ingest_cancellation\n  ✓ rag_multi_turn\n  ✓ search_cache\n  ✓ incremental_ingest\n  ✗ streaming_ask\n  ✗ http_daemon\n  ✗ mcp_server\n  ✗ single_file_ingest\n  ✓ bulk_search\n\nmodels\n  parser_version          x\n  chunker_version         y\n  embedding_version       z\n  prompt_template_version w\n  index_version           v\n  corpus_revision         7\n\nstats\n  doc_count               1\n  chunk_count             2\n  asset_count             1\n  last_ingest_at          (never)\n";
    assert_eq!(print_schema_text(&schema(None)), expected);
}

#[test]
fn schema_text_last_ingest() {
    let text = print_schema_text(&schema(Some("2024-05-06T07:08:09Z")));
    assert!(text.ends_with("  last_ingest_at          2024-05-06T07:08:09Z\n"));
    assert!(text.contains("kebab v") && text.contains("capabilities") && text.contains("models") && text.contains("stats"));
}

#[test]
fn mutating_commands_are_ingest_and_reset() {
    for c in [Command::Ingest, Command::IngestFile, Command::IngestStdin, Command::Reset] {
        assert!(is_mutating(&c), "{c:?}");
    }
    for c in [
        Command::Init,
        Command::Config,
        Command::List,
        Command::Inspect,
        Command::Fetch,
        Command::Search,
        Command::Ask,
        Command::Doctor,
        Command::Schema,
        Command::Eval,
        Command::Mcp,
    ] {
        assert!(!is_mutating(&c), "{c:?}");
    }
}

#[test]
fn flags_map_onto_modes_and_trust_levels() {
    assert_eq!(SearchMode::from(ModeFlag::Lexical), SearchMode::Lexical);
    assert_eq!(SearchMode::from(ModeFlag::Vector), SearchMode::Vector);
    assert_eq!(SearchMode::from(ModeFlag::Hybrid), SearchMode::Hybrid);
    assert_eq!(TrustLevel::from(TrustLevelFlag::Primary), TrustLevel::Primary);
    assert_eq!(TrustLevel::from(TrustLevelFlag::Secondary), TrustLevel::Secondary);
    assert_eq!(TrustLevel::from(TrustLevelFlag::Generated), TrustLevel::Generated);
}

#[test]
fn search_empty_query_emits_invalid_input() {
    for q in ["", "   "] {
        let e = validate_query(Command::Search, q).expect_err("empty/whitespace query must fail");
        assert_eq!(e.code, "invalid_input");
        assert_eq!(e.message, "query is empty; provide a non-empty search term or use --bulk");
    }
    assert!(validate_query(Command::Search, " rust async ").is_ok());
}

#[test]
fn ask_empty_query_emits_invalid_input() {
    let e = validate_query(Command::Ask, "").expect_err("empty query must fail");
    assert_eq!(e.code, "invalid_input");
    assert_eq!(e.hint.as_deref(), Some("e.g. `kebab ask \"explain this code\"`"));
    assert!(validate_query(Command::Ask, "explain this code").is_ok());
}
