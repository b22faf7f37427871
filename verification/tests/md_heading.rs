use kebab::hashing::POLICY_HASH_HEX_LEN;
use kebab::md_heading::MdHeadingV1Chunker;
use kebab::model::{
    Block, CanonicalDocument, ChunkPolicy, CodeBlock, CommonBlock, HeadingBlock, ImageRefBlock,
    SourceSpan, TableBlock, TextBlock,
};
use kebab::render::render_block_text;

const VERSION_LABEL: &str = "md-heading-v1";

fn make_doc(blocks: Vec<Block>) -> CanonicalDocument {
    CanonicalDocument { doc_id: "d".repeat(32), blocks }
}

fn span(start: u32, end: u32) -> SourceSpan {
    SourceSpan::Line { start, end }
}

fn span_key(s: &SourceSpan) -> String {
    match s {
        SourceSpan::Line { start, end } => format!("L{start}-{end}"),
        SourceSpan::Page { page, .. } => format!("P{page}"),
        SourceSpan::Code { line_start, line_end, .. } => format!("C{line_start}-{line_end}"),
    }
}

fn common_for(kind: &str, heading_path: &[String], ordinal: u32, s: SourceSpan) -> CommonBlock {
    CommonBlock {
        block_id: format!("{kind}:{}:{ordinal}:{}", heading_path.join("/"), span_key(&s)),
        heading_path: heading_path.to_vec(),
        source_span: s,
    }
}

fn heading(level: u8, text: &str, ordinal: u32, line: u32) -> Block {
    Block::Heading(HeadingBlock {
        common: common_for("heading", &[], ordinal, span(line, line)),
        level,
        text: text.into(),
    })
}

fn heading_with_parents(level: u8, text: &str, parents: &[&str], ordinal: u32, line: u32) -> Block {
    let hp: Vec<String> = parents.iter().map(|s| (*s).into()).collect();
    Block::Heading(HeadingBlock {
        common: common_for("heading", &hp, ordinal, span(line, line)),
        level,
        text: text.into(),
    })
}

fn paragraph(text: &str, heading_path: &[&str], ordinal: u32, line: u32) -> Block {
    let hp: Vec<String> = heading_path.iter().map(|s| (*s).into()).collect();
    Block::Paragraph(TextBlock {
        common: common_for("paragraph", &hp, ordinal, span(line, line)),
        text: text.into(),
    })
}

fn code_block(code: &str, heading_path: &[&str], ordinal: u32, s: SourceSpan) -> Block {
    let hp: Vec<String> = heading_path.iter().map(|s| (*s).into()).collect();
    Block::Code(CodeBlock {
        common: common_for("code", &hp, ordinal, s),
        lang: Some("rust".into()),
        code: code.into(),
    })
}

fn table(
    headers: Vec<&str>,
    rows: Vec<Vec<&str>>,
    heading_path: &[&str],
    ordinal: u32,
    s: SourceSpan,
) -> Block {
    let hp: Vec<String> = heading_path.iter().map(|s| (*s).into()).collect();
    Block::Table(TableBlock {
        common: common_for("table", &hp, ordinal, s),
        headers: headers.into_iter().map(String::from).collect(),
        rows: rows
            .into_iter()
            .map(|r| r.into_iter().map(String::from).collect())
            .collect(),
    })
}

fn image_ref(alt: &str, heading_path: &[&str], ordinal: u32, line: u32) -> Block {
    let hp: Vec<String> = heading_path.iter().map(|s| (*s).into()).collect();
    Block::ImageRef(ImageRefBlock {
        common: common_for("imageref", &hp, ordinal, span(line, line)),
        src: "img.png".into(),
        alt: alt.into(),
        ocr: None,
        caption: None,
    })
}

fn default_policy(target: usize, overlap: usize) -> ChunkPolicy {
    ChunkPolicy {
        target_tokens: target,
        overlap_tokens: overlap,
        respect_markdown_headings: true,
        chunker_version: VERSION_LABEL.into(),
    }
}

#[test]
fn chunker_version_is_md_heading_v1() {
    assert_eq!(MdHeadingV1Chunker.chunker_version(), VERSION_LABEL.to_string());
}

#[test]
fn policy_hash_is_deterministic_and_16_hex() {
    let p = default_policy(500, 80);
    let h1 = MdHeadingV1Chunker.policy_hash(&p);
    let h2 = MdHeadingV1Chunker.policy_hash(&p);
    assert_eq!(h1, h2);
    assert_eq!(h1.len(), POLICY_HASH_HEX_LEN);
    assert!(h1.bytes().all(|b| b.is_ascii_hexdigit()));
}

#[test]
fn policy_hash_differs_when_policy_differs() {
    let p1 = default_policy(500, 80);
    let p2 = default_policy(500, 0);
    assert_ne!(MdHeadingV1Chunker.policy_hash(&p1), MdHeadingV1Chunker.policy_hash(&p2));
}

#[test]
fn heading_boundary_respected() {
    let blocks = vec![
        heading(2, "First", 0, 1),
        paragraph("body of first", &["First"], 0, 2),
        heading(2, "Second", 1, 3),
        paragraph("body of second", &["Second"], 0, 4),
    ];
    let doc = make_doc(blocks);
    let chunks = MdHeadingV1Chunker.chunk(&doc, &default_policy(10_000, 0)).unwrap();
    assert_eq!(chunks.len(), 2);
    assert_eq!(chunks[0].block_ids.len(), 2);
    assert_eq!(chunks[1].block_ids.len(), 2);
    assert_eq!(chunks[0].heading_path, vec!["First".to_string()]);
    assert_eq!(chunks[1].heading_path, vec!["Second".to_string()]);
}

#[test]
fn code_block_never_splits() {
    let big = "x".repeat(2400);
    let blocks = vec![code_block(&big, &[], 0, span(1, 50))];
    let doc = make_doc(blocks);
    let chunks = MdHeadingV1Chunker.chunk(&doc, &default_policy(500, 80)).unwrap();
    assert_eq!(chunks.len(), 1);
    assert_eq!(chunks[0].block_ids.len(), 1);
    assert!(chunks[0].token_estimate > 500);
}

#[test]
fn table_stays_single_chunk_when_small() {
    let t = table(
        vec!["a", "b", "c"],
        vec![vec!["1", "2", "3"], vec!["4", "5", "6"]],
        &[],
        0,
        span(1, 4),
    );
    let doc = make_doc(vec![t]);
    let chunks = MdHeadingV1Chunker.chunk(&doc, &default_policy(500, 80)).unwrap();
    assert_eq!(chunks.len(), 1);
    assert_eq!(chunks[0].block_ids.len(), 1);
}

#[test]
fn long_section_splits_with_overlap() {
    let mut bs = vec![heading(2, "Long", 0, 1)];
    for i in 0..6u32 {
        bs.push(paragraph(&"x".repeat(60), &["Long"], i, i + 2));
    }
    let doc = make_doc(bs);
    let chunks = MdHeadingV1Chunker.chunk(&doc, &default_policy(50, 20)).unwrap();
    assert!(chunks.len() >= 2, "expected ≥2 chunks, got {}: {chunks:#?}", chunks.len());
    for c in &chunks {
        assert_eq!(c.heading_path, vec!["Long".to_string()]);
    }
    for w in chunks.windows(2) {
        let prev_tail = w[0].block_ids.last().unwrap();
        assert!(
            w[1].block_ids.contains(prev_tail),
            "chunk N+1 must seed from chunk N's tail; prev_tail={prev_tail:?}, next ids={:?}",
            w[1].block_ids
        );
    }
}

#[test]
fn image_ref_p6_4_plain_concat_drops_empty_parts() {
    let mk = |alt: &str, ocr: Option<&str>, cap: Option<&str>| {
        Block::ImageRef(ImageRefBlock {
            common: common_for("imageref", &[], 0, span(1, 1)),
            src: "img.png".into(),
            alt: alt.into(),
            ocr: ocr.map(|t| t.to_string()),
            caption: cap.map(|t| t.to_string()),
        })
    };
    assert_eq!(render_block_text(&mk("photo.png", None, None)), "photo.png");
    assert_eq!(render_block_text(&mk("photo.png", Some("Hello"), None)), "photo.png\n\nHello");
    assert_eq!(
        render_block_text(&mk("photo.png", None, Some("a red square"))),
        "photo.png\n\na red square"
    );
    assert_eq!(
        render_block_text(&mk("photo.png", Some("Hello"), Some("a red square"))),
        "photo.png\n\nHello\n\na red square"
    );
    let blk = mk("", Some("text from image"), None);
    assert_eq!(
        render_block_text(&blk),
        "img.png\n\ntext from image",
        "empty alt must fall back to the basename of `src`"
    );
}

#[test]
fn image_ref_emits_own_chunk_zero_tokens() {
    let blocks = vec![
        heading(2, "With image", 0, 1),
        paragraph("intro", &["With image"], 0, 2),
        image_ref("a cat", &["With image"], 0, 3),
        paragraph("after", &["With image"], 1, 4),
    ];
    let doc = make_doc(blocks);
    let chunks = MdHeadingV1Chunker.chunk(&doc, &default_policy(10_000, 0)).unwrap();
    assert!(chunks.len() >= 3, "unexpected chunk count: {chunks:#?}");
    let img_chunk = chunks.iter().find(|c| c.text == "a cat").expect("image chunk present");
    assert_eq!(img_chunk.token_estimate, 0);
    assert_eq!(img_chunk.block_ids.len(), 1);
}

#[test]
fn md_heading_v1_deterministic_chunk_ids_1000() {
    let blocks = vec![
        heading(2, "Det", 0, 1),
        paragraph("body 1", &["Det"], 0, 2),
        paragraph("body 2", &["Det"], 1, 3),
        heading(2, "Det 2", 1, 4),
        paragraph("body 3", &["Det 2"], 0, 5),
    ];
    let doc = make_doc(blocks);
    let policy = default_policy(50, 10);
    let baseline: Vec<String> = MdHeadingV1Chunker
        .chunk(&doc, &policy)
        .unwrap()
        .into_iter()
        .map(|c| c.chunk_id)
        .collect();
    for _ in 0..1000 {
        let again: Vec<String> = MdHeadingV1Chunker
            .chunk(&doc, &policy)
            .unwrap()
            .into_iter()
            .map(|c| c.chunk_id)
            .collect();
        assert_eq!(again, baseline);
    }
}

#[test]
fn heading_only_chunk_carries_self_in_path() {
    let blocks = vec![
        heading_with_parents(1, "Alpha", &[], 0, 1),
        heading_with_parents(2, "Beta", &["Alpha"], 0, 2),
        code_block("fn x() {}", &["Alpha", "Beta"], 0, span(3, 3)),
    ];
    let doc = make_doc(blocks);
    let chunks = MdHeadingV1Chunker.chunk(&doc, &default_policy(10_000, 0)).unwrap();
    assert_eq!(chunks.len(), 3, "got {chunks:#?}");
    assert_eq!(chunks[0].heading_path, vec!["Alpha".to_string()]);
    assert_eq!(chunks[1].heading_path, vec!["Alpha".to_string(), "Beta".to_string()]);
    assert_eq!(chunks[2].heading_path, vec!["Alpha".to_string(), "Beta".to_string()]);
}

#[test]
fn md_heading_v1_overlap_clamped_when_overlap_exceeds_target() {
    let mut bs = vec![heading_with_parents(2, "Long", &[], 0, 1)];
    for i in 0..5u32 {
        bs.push(paragraph(&"x".repeat(60), &["Long"], i, i + 2));
    }
    let doc = make_doc(bs);
    let policy = ChunkPolicy {
        target_tokens: 50,
        overlap_tokens: 200,
        respect_markdown_headings: true,
        chunker_version: VERSION_LABEL.into(),
    };
    let chunks = MdHeadingV1Chunker.chunk(&doc, &policy).unwrap();
    for (i, c) in chunks.iter().enumerate() {
        assert!(
            c.block_ids.len() >= 2,
            "chunk {i} degenerated to {} block(s); pathology not prevented: {chunks:#?}",
            c.block_ids.len()
        );
    }
}

#[test]
fn chunk_ids_differ_across_runs_of_blocks() {
    let blocks = vec![
        heading(2, "A", 0, 1),
        paragraph("alpha", &["A"], 0, 2),
        heading(2, "B", 1, 3),
        paragraph("beta", &["B"], 0, 4),
    ];
    let doc = make_doc(blocks);
    let chunks = MdHeadingV1Chunker.chunk(&doc, &default_policy(10_000, 0)).unwrap();
    assert_eq!(chunks.len(), 2);
    assert_ne!(chunks[0].chunk_id, chunks[1].chunk_id);
    assert_eq!(chunks[0].text, "A\n\nalpha");
    assert_eq!(chunks[0].doc_id, "d".repeat(32));
    assert_eq!(chunks[0].chunker_version, VERSION_LABEL);
    assert_eq!(chunks[0].policy_hash, MdHeadingV1Chunker.policy_hash(&default_policy(10_000, 0)));
}

#[test]
fn empty_document_yields_no_chunks() {
    let doc = make_doc(vec![]);
    let chunks = MdHeadingV1Chunker.chunk(&doc, &default_policy(500, 80)).unwrap();
    assert!(chunks.is_empty());
}
