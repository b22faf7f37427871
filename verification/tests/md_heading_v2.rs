use kebab::hashing::POLICY_HASH_HEX_LEN;
use kebab::md_heading::MdHeadingV1Chunker;
use kebab::md_heading_v2::MdHeadingV2Chunker;
use kebab::model::{
    Block, CanonicalDocument, ChunkPolicy, CodeBlock, CommonBlock, HeadingBlock, ImageRefBlock,
    ListBlock, ListItem, SourceSpan, TextBlock,
};
use kebab::oversize::{char_pieces, text_pieces, BYTES_PER_TOKEN};
use kebab::render::block_tokens_of;

const V2_LABEL: &str = "md-heading-v2";

fn v2_doc(blocks: Vec<Block>) -> CanonicalDocument {
    CanonicalDocument { doc_id: "d".repeat(32), blocks }
}

fn v2_span(start: u32, end: u32) -> SourceSpan {
    SourceSpan::Line { start, end }
}

fn v2_common(kind: &str, heading_path: &[String], ordinal: u32, s: SourceSpan) -> CommonBlock {
    let key = match &s {
        SourceSpan::Line { start, end } => format!("{start}-{end}"),
        _ => String::from("other"),
    };
    CommonBlock {
        block_id: format!("{kind}:{}:{ordinal}:{key}", heading_path.join("/")),
        heading_path: heading_path.to_vec(),
        source_span: s,
    }
}

fn v2_heading(level: u8, text: &str, ordinal: u32, line: u32) -> Block {
    Block::Heading(HeadingBlock {
        common: v2_common("heading", &[], ordinal, v2_span(line, line)),
        level,
        text: text.into(),
    })
}

fn v2_paragraph(text: &str, heading_path: &[&str], ordinal: u32, line: u32) -> Block {
    let hp: Vec<String> = heading_path.iter().map(|s| (*s).into()).collect();
    Block::Paragraph(TextBlock {
        common: v2_common("paragraph", &hp, ordinal, v2_span(line, line)),
        text: text.into(),
    })
}

fn v2_list(items: &[&str], heading_path: &[&str], ordinal: u32, start: u32, end: u32) -> Block {
    let hp: Vec<String> = heading_path.iter().map(|s| (*s).into()).collect();
    Block::List(ListBlock {
        common: v2_common("list", &hp, ordinal, v2_span(start, end)),
        items: items.iter().map(|t| ListItem { text: (*t).to_string() }).collect(),
    })
}

fn v2_code(code: &str, heading_path: &[&str], ordinal: u32, start: u32, end: u32) -> Block {
    let hp: Vec<String> = heading_path.iter().map(|s| (*s).into()).collect();
    Block::Code(CodeBlock {
        common: v2_common("code", &hp, ordinal, v2_span(start, end)),
        lang: Some("rust".into()),
        code: code.into(),
    })
}

fn v2_image_with_ocr(ocr_text: &str, ordinal: u32, line: u32) -> Block {
    Block::ImageRef(ImageRefBlock {
        common: v2_common("imageref", &[], ordinal, v2_span(line, line)),
        src: "dense.png".into(),
        alt: "dense".into(),
        ocr: Some(ocr_text.into()),
        caption: None,
    })
}

fn policy_v2(budget: usize) -> (ChunkPolicy, MdHeadingV2Chunker) {
    let p = ChunkPolicy {
        target_tokens: 500,
        overlap_tokens: 80,
        respect_markdown_headings: true,
        chunker_version: V2_LABEL.into(),
    };
    (p, MdHeadingV2Chunker { max_chunk_tokens: budget })
}

fn policy_v1() -> ChunkPolicy {
    ChunkPolicy {
        target_tokens: 500,
        overlap_tokens: 80,
        respect_markdown_headings: true,
        chunker_version: "md-heading-v1".into(),
    }
}

#[test]
fn chunker_version_is_md_heading_v2() {
    let (_, c) = policy_v2(4000);
    assert_eq!(c.chunker_version(), V2_LABEL.to_string());
}

#[test]
fn oversize_image_ocr_chunk_splits() {
    let budget = 200;
    let (policy, chunker) = policy_v2(budget);
    let ocr = "WiredTiger cache eviction stalls under heavy write load. ".repeat(54);
    let doc = v2_doc(vec![v2_image_with_ocr(&ocr, 0, 1)]);
    let chunks = chunker.chunk(&doc, &policy).unwrap();
    assert_eq!(
        block_tokens_of(&doc.blocks[0]),
        0,
        "ImageRef token_estimate must be 0 (image-only convention)"
    );
    assert!(chunks.len() >= 2, "oversize image OCR must split, got {} chunk(s)", chunks.len());
    for ch in &chunks {
        assert!(
            ch.text.len().div_ceil(BYTES_PER_TOKEN) <= budget,
            "every split piece's embedded text must be ≤ budget"
        );
    }
    let mut ids: Vec<String> = chunks.iter().map(|c| c.chunk_id.clone()).collect();
    let n = ids.len();
    ids.sort_unstable();
    ids.dedup();
    assert_eq!(ids.len(), n, "split piece chunk_ids must be unique");
}

#[test]
fn oversize_list_block_splits() {
    let items: Vec<String> = (0..60)
        .map(|i| format!("log line {i:03}: some event description here"))
        .collect();
    let item_refs: Vec<&str> = items.iter().map(String::as_str).collect();
    let doc = v2_doc(vec![v2_list(&item_refs, &[], 0, 1, 60)]);
    let (p, c) = policy_v2(50);
    let chunks = c.chunk(&doc, &p).unwrap();
    assert!(chunks.len() >= 2, "oversize list must split, got {}: {chunks:#?}", chunks.len());
    for ch in &chunks {
        assert!(ch.token_estimate <= 50, "piece exceeds budget: {} > 50", ch.token_estimate);
    }
    let expected = item_refs.join("\n");
    let rejoined = chunks.iter().map(|c| c.text.as_str()).collect::<Vec<_>>().join("\n");
    assert_eq!(rejoined, expected, "pieces must reconstruct the list text");
    let mut ids: Vec<&str> = chunks.iter().map(|c| c.chunk_id.as_str()).collect();
    let n = ids.len();
    ids.sort_unstable();
    ids.dedup();
    assert_eq!(ids.len(), n, "chunk_ids must be unique");
}

#[test]
fn oversize_paragraph_single_line_char_splits() {
    let korean_base = "가나다라마바사아자차카타파하";
    let text = korean_base.repeat(30);
    let doc = v2_doc(vec![v2_paragraph(&text, &[], 0, 1)]);
    let (p, c) = policy_v2(20);
    let chunks = c.chunk(&doc, &p).unwrap();
    assert!(
        chunks.len() >= 2,
        "single-line oversize paragraph must char-split, got {}: {chunks:#?}",
        chunks.len()
    );
    for ch in &chunks {
        assert!(ch.token_estimate <= 20, "piece exceeds budget: {} > 20", ch.token_estimate);
        assert!(!ch.text.contains('\u{FFFD}'), "replacement char detected — mid-codepoint split!");
        assert!(std::str::from_utf8(ch.text.as_bytes()).is_ok());
    }
    let rejoined: String = chunks.iter().map(|c| c.text.as_str()).collect();
    assert_eq!(rejoined, text, "char pieces must reconstruct original");
}

#[test]
fn oversize_code_block_still_splits() {
    let body: String = (0..30)
        .map(|i| format!("    let x{i:02} = compute({i});"))
        .collect::<Vec<_>>()
        .join("\n");
    let doc = v2_doc(vec![v2_code(&body, &[], 0, 5, 34)]);
    let (p, c) = policy_v2(50);
    let chunks = c.chunk(&doc, &p).unwrap();
    assert!(chunks.len() >= 2, "oversize code must split via post-pass, got {}: {chunks:#?}", chunks.len());
    for ch in &chunks {
        assert!(ch.token_estimate <= 50, "piece exceeds budget: {} > 50", ch.token_estimate);
    }
    let rejoined = chunks.iter().map(|c| c.text.as_str()).collect::<Vec<_>>().join("\n");
    assert_eq!(rejoined, body, "pieces must reconstruct the code text");
}

#[test]
fn non_oversize_identical_to_v1() {
    let blocks = vec![
        v2_heading(2, "First", 0, 1),
        v2_paragraph("body of the first section here", &["First"], 0, 2),
        v2_paragraph("more first-section prose", &["First"], 1, 3),
        v2_heading(2, "Second", 1, 4),
        v2_paragraph("second section body text", &["Second"], 0, 5),
        v2_code("fn small() {}", &["Second"], 0, 6, 6),
    ];
    let doc = v2_doc(blocks);
    let v1 = MdHeadingV1Chunker.chunk(&doc, &policy_v1()).unwrap();
    let (p, c) = policy_v2(4000);
    let v2 = c.chunk(&doc, &p).unwrap();
    assert_eq!(v1.len(), v2.len(), "chunk count must match v1");
    for (a, b) in v1.iter().zip(v2.iter()) {
        assert_eq!(a.text, b.text, "text must match v1");
        assert_eq!(a.heading_path, b.heading_path, "heading_path must match v1");
        assert_eq!(a.source_spans, b.source_spans, "source_spans must match v1");
        assert_eq!(a.token_estimate, b.token_estimate, "token_estimate must match v1");
        assert_eq!(a.block_ids, b.block_ids, "block_ids must match v1");
    }
}

#[test]
fn split_pieces_unique_deterministic_ids() {
    let items: Vec<String> = (0..40)
        .map(|i| format!("item {i:02}: line number with some padding text here"))
        .collect();
    let item_refs: Vec<&str> = items.iter().map(String::as_str).collect();
    let doc = v2_doc(vec![v2_list(&item_refs, &[], 0, 1, 40)]);
    let (p, c) = policy_v2(40);
    let baseline: Vec<String> =
        c.chunk(&doc, &p).unwrap().into_iter().map(|ch| ch.chunk_id).collect();
    assert!(baseline.len() >= 2, "must split into ≥2 pieces");
    let mut sorted = baseline.clone();
    let n = sorted.len();
    sorted.sort_unstable();
    sorted.dedup();
    assert_eq!(sorted.len(), n, "chunk_ids unique across split pieces");
    for _ in 0..1000 {
        let again: Vec<String> =
            c.chunk(&doc, &p).unwrap().into_iter().map(|ch| ch.chunk_id).collect();
        assert_eq!(again, baseline, "chunk_id sequence must be deterministic");
    }
}

#[test]
fn md_heading_v2_budget_in_policy_hash() {
    let p = ChunkPolicy {
        target_tokens: 500,
        overlap_tokens: 80,
        respect_markdown_headings: true,
        chunker_version: V2_LABEL.into(),
    };
    let a = MdHeadingV2Chunker { max_chunk_tokens: 100 };
    let b = MdHeadingV2Chunker { max_chunk_tokens: 200 };
    assert_ne!(a.policy_hash(&p), b.policy_hash(&p), "different budgets must yield different policy_hash");
    let items: Vec<String> = (0..30).map(|i| format!("    let x{i:02} = compute({i});")).collect();
    let item_refs: Vec<&str> = items.iter().map(String::as_str).collect();
    let doc = v2_doc(vec![v2_list(&item_refs, &[], 0, 1, 30)]);
    let ids_a: Vec<String> = a.chunk(&doc, &p).unwrap().into_iter().map(|c| c.chunk_id).collect();
    let ids_b: Vec<String> = b.chunk(&doc, &p).unwrap().into_iter().map(|c| c.chunk_id).collect();
    assert_ne!(ids_a, ids_b, "different budgets must produce different chunk_ids");
}

#[test]
fn under_budget_stores_bare_policy_hash() {
    let doc = v2_doc(vec![v2_code("fn x() {}", &[], 0, 1, 1)]);
    let (p, c) = policy_v2(4000);
    let chunks = c.chunk(&doc, &p).unwrap();
    assert_eq!(chunks.len(), 1);
    assert_eq!(chunks[0].policy_hash.len(), POLICY_HASH_HEX_LEN);
    assert!(!chunks[0].policy_hash.contains('#'), "stored hash has no #seg suffix: {}", chunks[0].policy_hash);
}

#[test]
fn md_heading_v2_text_pieces_multiline_roundtrip() {
    let lines: Vec<String> = (0..20).map(|i| format!("line {i:02}: some content here")).collect();
    let text = lines.join("\n");
    let budget = 10usize;
    let pieces = text_pieces(&text, budget);
    assert!(pieces.len() >= 2, "must split multi-line text");
    for p in &pieces {
        assert!(
            p.len().div_ceil(BYTES_PER_TOKEN) <= budget,
            "piece exceeds budget: {} bytes / 3 = {} > {budget}",
            p.len(),
            p.len().div_ceil(BYTES_PER_TOKEN)
        );
    }
    assert_eq!(pieces.join("\n"), text, "pieces must reconstruct original");
}

#[test]
fn md_heading_v2_char_pieces_utf8_roundtrip() {
    let s = "hello가나다world마바사".repeat(10);
    let budget = 5usize;
    let pieces = char_pieces(&s, budget);
    assert!(pieces.len() >= 2);
    for p in &pieces {
        assert!(
            p.len() <= budget * BYTES_PER_TOKEN,
            "char piece too long: {} > {}",
            p.len(),
            budget * BYTES_PER_TOKEN
        );
        assert!(std::str::from_utf8(p.as_bytes()).is_ok(), "not valid UTF-8");
    }
    assert_eq!(pieces.concat(), s, "char pieces must reconstruct original");
}

#[test]
fn v2_split_pieces_keep_block_ids_and_spans_of_the_original() {
    let items: Vec<String> = (0..30).map(|i| format!("entry {i:02} with filler text")).collect();
    let item_refs: Vec<&str> = items.iter().map(String::as_str).collect();
    let doc = v2_doc(vec![v2_list(&item_refs, &["H"], 0, 3, 32)]);
    let (p, c) = policy_v2(30);
    let chunks = c.chunk(&doc, &p).unwrap();
    assert!(chunks.len() >= 2);
    for ch in &chunks {
        assert_eq!(ch.block_ids, vec!["list:H:0:3-32".to_string()]);
        assert_eq!(ch.source_spans, vec![SourceSpan::Line { start: 3, end: 32 }]);
        assert_eq!(ch.heading_path, vec!["H".to_string()]);
        assert_eq!(ch.policy_hash, c.policy_hash(&p));
        assert_eq!(ch.token_estimate, ch.text.len().div_ceil(BYTES_PER_TOKEN));
    }
}
