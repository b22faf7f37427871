use kebab::code_ts_ast::{split_oversize, CodeTsAstV1Chunker};
use kebab::md_heading::MdHeadingV1Chunker;
use kebab::model::{Block, CanonicalDocument, ChunkError, ChunkPolicy, CodeBlock, CommonBlock, SourceSpan, TextBlock};

fn code_doc(units: &[(&str, u32, u32, &str)]) -> CanonicalDocument {
    let doc_id = "c".repeat(32);
    let blocks = units
        .iter()
        .enumerate()
        .map(|(i, (sym, ls, le, code))| {
            let span = SourceSpan::Code {
                line_start: *ls,
                line_end: *le,
                symbol: Some((*sym).to_string()),
                lang: Some("typescript".into()),
            };
            Block::Code(CodeBlock {
                common: CommonBlock {
                    block_id: format!("code-{i}-{ls}-{le}"),
                    heading_path: vec![],
                    source_span: span,
                },
                lang: Some("typescript".into()),
                code: (*code).to_string(),
            })
        })
        .collect();
    CanonicalDocument { doc_id, blocks }
}

fn ts_policy() -> ChunkPolicy {
    ChunkPolicy {
        target_tokens: 500,
        overlap_tokens: 80,
        respect_markdown_headings: false,
        chunker_version: "code-ts-ast-v1".into(),
    }
}

#[test]
fn chunker_version_is_code_ts_ast_v1() {
    assert_eq!(CodeTsAstV1Chunker.chunker_version(), "code-ts-ast-v1".to_string());
}

#[test]
fn one_chunk_per_unit_preserves_code_span() {
    let doc = code_doc(&[
        ("parse", 1, 3, "function parse(): void {\n    // x\n}"),
        ("Foo.double", 5, 7, "function double(): number {\n    //\n    return 0;\n}"),
    ]);
    let chunks = CodeTsAstV1Chunker.chunk(&doc, &ts_policy()).unwrap();
    assert_eq!(chunks.len(), 2);
    for c in &chunks {
        assert_eq!(c.source_spans.len(), 1);
        assert!(matches!(c.source_spans[0], SourceSpan::Code { .. }));
        assert_eq!(c.heading_path, Vec::<String>::new());
        assert_eq!(c.chunker_version, "code-ts-ast-v1");
    }
    match &chunks[0].source_spans[0] {
        SourceSpan::Code { symbol, line_start, line_end, .. } => {
            assert_eq!(symbol.as_deref(), Some("parse"));
            assert_eq!((*line_start, *line_end), (1, 3));
        }
        _ => unreachable!(),
    }
}

#[test]
fn oversize_unit_splits_into_parts_with_unique_ids() {
    let body = (0..500).map(|i| format!("    const x{i} = {i};")).collect::<Vec<_>>().join("\n");
    let code = format!("function big(): void {{\n{body}\n}}");
    let doc = code_doc(&[("big", 1, 502, &code)]);
    let chunks = CodeTsAstV1Chunker.chunk(&doc, &ts_policy()).unwrap();
    assert!(chunks.len() >= 2, "oversize unit must split, got {}", chunks.len());
    for c in &chunks {
        match &c.source_spans[0] {
            SourceSpan::Code { symbol, .. } => {
                assert!(
                    symbol.as_deref().unwrap().starts_with("big [part "),
                    "part-numbered symbol, got {symbol:?}"
                );
            }
            _ => unreachable!(),
        }
    }
    let mut ids: Vec<&str> = chunks.iter().map(|c| c.chunk_id.as_str()).collect();
    let n = ids.len();
    ids.sort();
    ids.dedup();
    assert_eq!(ids.len(), n, "chunk_ids unique across split parts");
}

#[test]
fn non_code_doc_errors() {
    let mut doc = code_doc(&[("parse", 1, 1, "function parse(): void {}")]);
    doc.blocks = vec![Block::Paragraph(TextBlock {
        common: CommonBlock {
            block_id: "b".into(),
            heading_path: vec![],
            source_span: SourceSpan::Line { start: 1, end: 1 },
        },
        text: "x".into(),
    })];
    let err = CodeTsAstV1Chunker.chunk(&doc, &ts_policy()).unwrap_err();
    assert_eq!(err, ChunkError::NonCodeBlock);
    assert!(err.message().contains("CodeTsAstV1Chunker"));
}

#[test]
fn code_block_with_line_span_errors() {
    let doc = CanonicalDocument {
        doc_id: "c".repeat(32),
        blocks: vec![Block::Code(CodeBlock {
            common: CommonBlock {
                block_id: "b".into(),
                heading_path: vec![],
                source_span: SourceSpan::Line { start: 1, end: 1 },
            },
            lang: None,
            code: "x".into(),
        })],
    };
    let err = CodeTsAstV1Chunker.chunk(&doc, &ts_policy()).unwrap_err();
    assert_eq!(err, ChunkError::NonCodeSpan);
    assert_eq!(err.message(), "CodeTsAstV1Chunker only handles code docs (got non-Code source_span)");
}

#[test]
fn code_ts_ast_v1_deterministic_chunk_ids_1000() {
    let doc = code_doc(&[("parse", 1, 2, "function parse(): void {}\n")]);
    let base: Vec<String> =
        CodeTsAstV1Chunker.chunk(&doc, &ts_policy()).unwrap().into_iter().map(|c| c.chunk_id).collect();
    for _ in 0..1000 {
        let again: Vec<String> =
            CodeTsAstV1Chunker.chunk(&doc, &ts_policy()).unwrap().into_iter().map(|c| c.chunk_id).collect();
        assert_eq!(again, base);
    }
}

#[test]
fn policy_hash_matches_md_heading_v1() {
    let p = ts_policy();
    assert_eq!(CodeTsAstV1Chunker.policy_hash(&p), MdHeadingV1Chunker.policy_hash(&p));
}

#[test]
fn split_oversize_parts_cover_the_code() {
    let lines: Vec<String> = (0..450).map(|i| format!("line {i}")).collect();
    let code = lines.join("\n");
    let parts = split_oversize(&code);
    assert!(parts.len() >= 3);
    let texts: Vec<&str> = parts.iter().map(|p| p.2.as_str()).collect();
    assert_eq!(texts.join("\n"), code);
    for p in &parts {
        assert!(p.1 - p.0 < 200, "each part holds at most 200 lines");
    }
    assert_eq!(parts[0].0, 0);
}

#[test]
fn oversize_parts_symbol_counts_parts() {
    let body = (0..300).map(|i| format!("x{i};")).collect::<Vec<_>>().join("\n");
    let doc = code_doc(&[("f", 10, 309, &body)]);
    let chunks = CodeTsAstV1Chunker.chunk(&doc, &ts_policy()).unwrap();
    assert_eq!(chunks.len(), 2);
    match &chunks[1].source_spans[0] {
        SourceSpan::Code { symbol, line_start, .. } => {
            assert_eq!(symbol.as_deref(), Some("f [part 2/2]"));
            assert!(*line_start > 10);
        }
        _ => unreachable!(),
    }
}
