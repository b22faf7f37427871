use kebab::hashing::{id_for_chunk, POLICY_HASH_HEX_LEN};
use kebab::md_heading_v2::MdHeadingV2Chunker;
use kebab::model::{Block, CanonicalDocument, ChunkError, ChunkPolicy, CommonBlock, SourceSpan, TextBlock};
use kebab::oversize::BYTES_PER_TOKEN;
use kebab::pdf_page::{chunk_page, PdfPageV1Chunker};

const PDF_LABEL: &str = "pdf-page-v1.2";
const BIG_BUDGET: usize = 100_000;

fn make_pdf_doc(pages: &[&str]) -> CanonicalDocument {
    let doc_id = "p".repeat(32);
    let mut blocks: Vec<Block> = Vec::new();
    for (i, text) in pages.iter().enumerate() {
        let page = (i as u32) + 1;
        let char_count = text.chars().count() as u32;
        let span = SourceSpan::Page { page, char_start: Some(0), char_end: Some(char_count) };
        blocks.push(Block::Paragraph(TextBlock {
            common: CommonBlock {
                block_id: format!("paragraph-page-{page}"),
                heading_path: Vec::new(),
                source_span: span,
            },
            text: (*text).to_string(),
        }));
    }
    CanonicalDocument { doc_id, blocks }
}

fn pdf_policy(target: usize, overlap: usize) -> ChunkPolicy {
    ChunkPolicy {
        target_tokens: target,
        overlap_tokens: overlap,
        respect_markdown_headings: false,
        chunker_version: PDF_LABEL.into(),
    }
}

fn chunker(max_chunk_tokens: usize) -> PdfPageV1Chunker {
    PdfPageV1Chunker { max_chunk_tokens }
}

fn page_of(s: &SourceSpan) -> (u32, Option<u32>, Option<u32>) {
    match s {
        SourceSpan::Page { page, char_start, char_end } => (*page, *char_start, *char_end),
        other => panic!("expected Page span, got {other:?}"),
    }
}

#[test]
fn chunker_version_is_pdf_page_v1() {
    assert_eq!(chunker(BIG_BUDGET).chunker_version(), PDF_LABEL.to_string());
}

#[test]
fn three_page_small_emits_one_chunk_per_page() {
    let doc = make_pdf_doc(&["page one", "page two", "page three"]);
    let chunks = chunker(BIG_BUDGET).chunk(&doc, &pdf_policy(500, 80)).unwrap();
    assert_eq!(chunks.len(), 3);
    for (i, c) in chunks.iter().enumerate() {
        assert_eq!(c.block_ids.len(), 1);
        assert_eq!(c.heading_path, Vec::<String>::new());
        assert_eq!(c.source_spans.len(), 1);
        let (page, char_start, char_end) = page_of(&c.source_spans[0]);
        assert_eq!(page, (i as u32) + 1);
        assert_eq!(char_start, Some(0));
        assert!(char_end.unwrap() > 0);
    }
    assert_eq!(chunks[0].text, "page one");
    assert_eq!(chunks[1].text, "page two");
    assert_eq!(chunks[2].text, "page three");
}

#[test]
fn one_page_huge_text_splits_into_multiple_chunks_with_overlap() {
    let para = "a".repeat(150);
    let page_text = std::iter::repeat_n(para, 8).collect::<Vec<_>>().join("\n\n");
    let doc = make_pdf_doc(&[&page_text]);
    let chunks = chunker(BIG_BUDGET).chunk(&doc, &pdf_policy(50, 20)).unwrap();
    assert!(
        chunks.len() >= 4,
        "expected ≥4 chunks for a 1200-byte page; got {}: text len={}",
        chunks.len(),
        page_text.len()
    );
    for c in &chunks {
        assert_eq!(page_of(&c.source_spans[0]).0, 1);
    }
    for w in chunks.windows(2) {
        let prev_end = page_of(&w[0].source_spans[0]).2.expect("missing char_end");
        let next_start = page_of(&w[1].source_spans[0]).1.expect("missing char_start");
        assert!(next_start < prev_end, "expected overlap (next.start < prev.end): {next_start} vs {prev_end}");
    }
    let mut ids: Vec<&str> = chunks.iter().map(|c| c.chunk_id.as_str()).collect();
    ids.sort_unstable();
    let total = ids.len();
    ids.dedup();
    assert_eq!(ids.len(), total, "all chunk_ids must be unique");
}

#[test]
fn empty_page_produces_no_chunks_for_that_page() {
    let doc = make_pdf_doc(&["page one", "", "page three"]);
    let chunks = chunker(BIG_BUDGET).chunk(&doc, &pdf_policy(500, 80)).unwrap();
    assert_eq!(chunks.len(), 2);
    let pages: Vec<u32> = chunks.iter().map(|c| page_of(&c.source_spans[0]).0).collect();
    assert_eq!(pages, vec![1, 3]);
}

#[test]
fn whitespace_only_page_skipped_too() {
    let doc = make_pdf_doc(&["page one", "   \n  ", "page three"]);
    let chunks = chunker(BIG_BUDGET).chunk(&doc, &pdf_policy(500, 80)).unwrap();
    assert_eq!(chunks.len(), 2);
}

#[test]
fn non_pdf_doc_returns_error() {
    let blocks = vec![Block::Paragraph(TextBlock {
        common: CommonBlock {
            block_id: "md-paragraph-0".into(),
            heading_path: vec![],
            source_span: SourceSpan::Line { start: 1, end: 1 },
        },
        text: "markdown body".into(),
    })];
    let doc = CanonicalDocument { doc_id: "n".repeat(32), blocks };
    let err = chunker(BIG_BUDGET)
        .chunk(&doc, &pdf_policy(500, 80))
        .expect_err("non-PDF doc must error");
    assert_eq!(err, ChunkError::NonPageSpan);
    assert!(err.message().contains("PdfPageV1Chunker"), "error mentions chunker: {}", err.message());
}

#[test]
fn non_paragraph_block_returns_error() {
    let blocks = vec![Block::Heading(kebab::model::HeadingBlock {
        common: CommonBlock {
            block_id: "h".into(),
            heading_path: vec![],
            source_span: SourceSpan::Page { page: 1, char_start: Some(0), char_end: Some(2) },
        },
        level: 1,
        text: "Hi".into(),
    })];
    let doc = CanonicalDocument { doc_id: "n".repeat(32), blocks };
    let err = chunker(BIG_BUDGET).chunk(&doc, &pdf_policy(500, 80)).unwrap_err();
    assert_eq!(err, ChunkError::NonParagraphBlock);
    assert_eq!(err.message(), "PdfPageV1Chunker only handles PDF docs (got non-Paragraph block)");
}

#[test]
fn no_chunk_crosses_page_boundary() {
    let big_x = "x".repeat(2000);
    let big_y = "y".repeat(800);
    let pages = vec!["tiny page one.", big_x.as_str(), "another tiny one.", big_y.as_str()];
    let doc = make_pdf_doc(&pages);
    let chunks = chunker(BIG_BUDGET).chunk(&doc, &pdf_policy(50, 10)).unwrap();
    for c in &chunks {
        assert_eq!(c.source_spans.len(), 1, "chunk should hold one Page span");
        assert!(matches!(c.source_spans[0], SourceSpan::Page { .. }));
    }
    let mut prev_page = 0u32;
    for c in &chunks {
        let page = page_of(&c.source_spans[0]).0;
        assert!(page >= prev_page, "page numbers must be non-decreasing in chunk order: {prev_page} → {page}");
        prev_page = page;
    }
}

#[test]
fn pdf_page_v1_deterministic_chunk_ids_1000() {
    let second = "xyz ".repeat(500);
    let doc = make_pdf_doc(&["first page text. and another sentence here.", &second]);
    let policy = pdf_policy(80, 20);
    let baseline: Vec<String> =
        chunker(BIG_BUDGET).chunk(&doc, &policy).unwrap().into_iter().map(|c| c.chunk_id).collect();
    for _ in 0..1000 {
        let again: Vec<String> =
            chunker(BIG_BUDGET).chunk(&doc, &policy).unwrap().into_iter().map(|c| c.chunk_id).collect();
        assert_eq!(again, baseline);
    }
}

#[test]
fn snapshot_three_page_chunks_stable() {
    let doc = make_pdf_doc(&["Hello page 1.", "Hello page 2 with some more body text.", "Hello page 3."]);
    let chunks = chunker(BIG_BUDGET).chunk(&doc, &pdf_policy(500, 80)).unwrap();
    assert_eq!(chunks.len(), 3);
    for (i, c) in chunks.iter().enumerate() {
        assert_eq!(c.chunker_version, PDF_LABEL);
        assert_eq!(c.heading_path, Vec::<String>::new());
        assert_eq!(c.source_spans.len(), 1);
        let (page, char_start, char_end) = page_of(&c.source_spans[0]);
        assert_eq!(page, (i as u32) + 1);
        assert_eq!(char_start, Some(0));
        assert_eq!(char_end, Some(c.text.chars().count() as u32));
        assert!(c.policy_hash.len() == POLICY_HASH_HEX_LEN);
        assert!(c.policy_hash.bytes().all(|b| b.is_ascii_hexdigit()));
    }
}

#[test]
fn pdf_page_v1_overlap_clamped_when_overlap_exceeds_target() {
    let para = "a".repeat(150);
    let page_text = std::iter::repeat_n(para, 6).collect::<Vec<_>>().join("\n\n");
    let doc = make_pdf_doc(&[&page_text]);
    let policy = ChunkPolicy {
        target_tokens: 50,
        overlap_tokens: 200,
        respect_markdown_headings: false,
        chunker_version: PDF_LABEL.into(),
    };
    let chunks = chunker(BIG_BUDGET).chunk(&doc, &policy).unwrap();
    for w in chunks.windows(2) {
        let prev_start = page_of(&w[0].source_spans[0]).1.expect("missing char_start");
        let next_start = page_of(&w[1].source_spans[0]).1.expect("missing char_start");
        assert!(
            next_start > prev_start,
            "overlap must not fully re-emit prior chunk: prev_start={prev_start}, next_start={next_start}"
        );
    }
    let mut ids: Vec<&str> = chunks.iter().map(|c| c.chunk_id.as_str()).collect();
    ids.sort_unstable();
    let total = ids.len();
    ids.dedup();
    assert_eq!(ids.len(), total, "chunk_ids must remain unique");
}

#[test]
fn multi_chunk_page_with_aggressive_overlap_produces_unique_chunk_ids() {
    let early_seg = "가".repeat(10);
    let tail = "나".repeat(500);
    let page_text = format!("{early_seg}. {tail}");
    let doc = make_pdf_doc(&[&page_text]);
    let chunks = chunker(BIG_BUDGET).chunk(&doc, &pdf_policy(500, 80)).unwrap();
    assert!(chunks.len() >= 2, "expected ≥2 chunks for {} byte page; got {}", page_text.len(), chunks.len());
    let mut ids: Vec<&str> = chunks.iter().map(|c| c.chunk_id.as_str()).collect();
    ids.sort_unstable();
    let total = ids.len();
    ids.dedup();
    assert_eq!(ids.len(), total, "all chunk_ids must be unique even when overlap walks actual_start back to prev_min");
}

#[test]
fn policy_hash_matches_md_heading_v2_for_identical_policy_and_budget() {
    let p = pdf_policy(500, 80);
    let budget = 4000;
    let pdf = chunker(budget).policy_hash(&p);
    let md = MdHeadingV2Chunker { max_chunk_tokens: budget }.policy_hash(&p);
    assert_eq!(pdf, md, "pdf-page-v1.2 and md-heading-v2 must share policy_hash for an identical policy + budget");
}

#[test]
fn pdf_page_v1_budget_in_policy_hash() {
    let p = pdf_policy(500, 80);
    let a = chunker(100).policy_hash(&p);
    let b = chunker(200).policy_hash(&p);
    assert_ne!(a, b, "different budgets must yield different policy_hash");
}

#[test]
fn oversize_pdf_page_splits() {
    let page_text = "x".repeat(600);
    let doc = make_pdf_doc(&[&page_text]);
    let budget = 20;
    let chunks = chunker(budget).chunk(&doc, &pdf_policy(500, 80)).unwrap();
    assert!(chunks.len() >= 2, "oversize no-boundary page must tier-2 split, got {}", chunks.len());
    for c in &chunks {
        assert!(
            c.text.len().div_ceil(BYTES_PER_TOKEN) <= budget,
            "piece exceeds budget: {} > {budget}",
            c.text.len().div_ceil(BYTES_PER_TOKEN)
        );
    }
    let rejoined: String = chunks.iter().map(|c| c.text.as_str()).collect();
    assert_eq!(rejoined, page_text, "sub-pieces must reconstruct the page text");
    let mut ids: Vec<&str> = chunks.iter().map(|c| c.chunk_id.as_str()).collect();
    let total = ids.len();
    ids.sort_unstable();
    ids.dedup();
    assert_eq!(ids.len(), total, "all sub-piece chunk_ids must be unique");
    let page_chars = page_text.chars().count() as u32;
    for c in &chunks {
        let (page, s, e) = page_of(&c.source_spans[0]);
        assert_eq!(page, 1, "all pieces on page 1");
        assert_eq!(s, Some(0), "sub-piece span = parent segment start (0)");
        assert_eq!(e, Some(page_chars), "sub-piece span = parent segment end");
    }
}

#[test]
fn oversize_pdf_page_with_newlines_splits_without_span_drift() {
    let page_text = std::iter::repeat_n("wordword", 80).collect::<Vec<_>>().join("\n");
    let doc = make_pdf_doc(&[&page_text]);
    let budget = 20;
    let chunks = chunker(budget).chunk(&doc, &pdf_policy(500, 80)).unwrap();
    assert!(chunks.len() >= 2, "newline page must tier-2 split");
    for c in &chunks {
        assert!(c.text.len().div_ceil(BYTES_PER_TOKEN) <= budget, "piece exceeds budget");
    }
    let rejoined = chunks.iter().map(|c| c.text.as_str()).collect::<Vec<_>>().join("\n");
    assert_eq!(rejoined, page_text, "line-split pieces must reconstruct the page");
    let page_chars = page_text.chars().count() as u32;
    for c in &chunks {
        let (_, s, e) = page_of(&c.source_spans[0]);
        assert_eq!(s, Some(0), "segment start");
        assert_eq!(e, Some(page_chars), "segment end (no drift)");
    }
    let mut ids: Vec<&str> = chunks.iter().map(|c| c.chunk_id.as_str()).collect();
    let total = ids.len();
    ids.sort_unstable();
    ids.dedup();
    assert_eq!(ids.len(), total, "sub-piece chunk_ids unique");
}

#[test]
fn non_oversize_pdf_unchanged() {
    let page_text = "A short page that fits well under the budget.";
    let doc = make_pdf_doc(&[page_text]);
    let policy = pdf_policy(500, 80);
    let v12 = chunker(BIG_BUDGET).chunk(&doc, &policy).unwrap();
    assert_eq!(v12.len(), 1, "under-budget page is a single chunk");
    let c = &v12[0];
    assert_eq!(c.text, page_text, "text is the full page");
    assert_eq!(c.token_estimate, page_text.len().div_ceil(BYTES_PER_TOKEN));
    assert_eq!(c.heading_path, Vec::<String>::new());
    let (page, char_start, char_end) = page_of(&c.source_spans[0]);
    assert_eq!(page, 1);
    assert_eq!(char_start, Some(0));
    assert_eq!(char_end, Some(page_text.chars().count() as u32));
    let base = chunker(BIG_BUDGET).policy_hash(&policy);
    let block_id = match &doc.blocks[0] {
        Block::Paragraph(p) => p.common.block_id.clone(),
        _ => unreachable!(),
    };
    let expected_id = id_for_chunk(
        &doc.doc_id,
        &chunker(BIG_BUDGET).chunker_version(),
        &vec![block_id],
        &format!("{base}#c0"),
    );
    assert_eq!(c.chunk_id, expected_id, "single-piece chunk_id must use the bare #c{{segment_start}} form");
}

#[test]
fn chunk_page_small_text_is_one_segment() {
    let segs = chunk_page("hello world", 100, 10);
    assert_eq!(segs.len(), 1);
    let (seg_start, start, end, text) = &segs[0];
    assert_eq!((*seg_start, *start, *end), (0, 0, 11));
    assert_eq!(text, "hello world");
}

#[test]
fn chunk_page_whitespace_only_text_gives_no_chunks() {
    assert!(chunk_page("   ", 10, 0).is_empty());
    assert!(chunk_page(" \n\t \n", 1, 0).is_empty());
    assert!(chunk_page("", 10, 0).is_empty());
}

#[test]
fn chunker_policy_hashes_are_sixteen_lowercase_hex_digits() {
    let p = pdf_policy(500, 80);
    let h = chunker(4000).policy_hash(&p);
    assert_eq!(h.len(), POLICY_HASH_HEX_LEN);
    assert!(h.chars().all(|c| c.is_ascii_digit() || ('a'..='f').contains(&c)), "{h}");
}
