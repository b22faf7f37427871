use kebab::code_text_paragraph::{split_paragraphs, CodeTextParagraphV1Chunker};
use kebab::k8s_manifest::{split_yaml_documents, K8sManifestResourceV1Chunker};
use kebab::manifest_file::ManifestFileV1Chunker;
use kebab::model::{Block, CanonicalDocument, ChunkPolicy, CodeBlock, CommonBlock, SourceSpan};

fn single_code_doc(lang: &str, text: &str) -> CanonicalDocument {
    let line_count = text.lines().count() as u32;
    let span = SourceSpan::Code {
        line_start: 1,
        line_end: line_count.max(1),
        symbol: None,
        lang: Some(lang.into()),
    };
    let block = Block::Code(CodeBlock {
        common: CommonBlock { block_id: format!("code-{lang}-0"), heading_path: vec![], source_span: span },
        lang: Some(lang.into()),
        code: text.to_string(),
    });
    CanonicalDocument { doc_id: "t".repeat(32), blocks: vec![block] }
}

fn tier3_policy(label: &str) -> ChunkPolicy {
    ChunkPolicy {
        target_tokens: 500,
        overlap_tokens: 80,
        respect_markdown_headings: false,
        chunker_version: label.into(),
    }
}

fn code_range(s: &SourceSpan) -> (u32, u32) {
    match s {
        SourceSpan::Code { line_start, line_end, .. } => (*line_start, *line_end),
        other => panic!("expected Code span, got {other:?}"),
    }
}

fn code_symbol(s: &SourceSpan) -> Option<String> {
    match s {
        SourceSpan::Code { symbol, .. } => symbol.clone(),
        other => panic!("expected Code span, got {other:?}"),
    }
}

fn code_lang(s: &SourceSpan) -> Option<String> {
    match s {
        SourceSpan::Code { lang, .. } => lang.clone(),
        other => panic!("expected Code span, got {other:?}"),
    }
}

/// A shell script with four blank-line separated paragraphs at lines
/// 1-2, 4-7, 9-11 and 13-15.
fn sample_shell() -> String {
    [
        "#!/usr/bin/env bash",
        "set -euo pipefail",
        "",
        "build() {",
        "  cargo build --release",
        "  echo built",
        "}",
        "",
        "test_all() {",
        "  cargo test",
        "}",
        "",
        "main() {",
        "  build && test_all",
        "}",
    ]
    .join("\n")
        + "\n"
}

#[test]
fn shell_multi_paragraph_splits_on_blank_lines() {
    let text = sample_shell();
    let doc = single_code_doc("shell", &text);
    let chunks = CodeTextParagraphV1Chunker.chunk(&doc, &tier3_policy("code-text-paragraph-v1")).expect("chunk");
    assert_eq!(chunks.len(), 4, "expected 4 chunks (one per paragraph), got {}: {chunks:#?}", chunks.len());
    for (i, chunk) in chunks.iter().enumerate() {
        assert!(code_symbol(&chunk.source_spans[0]).is_none(), "chunk[{i}] symbol must be None");
        assert_eq!(code_lang(&chunk.source_spans[0]).as_deref(), Some("shell"), "chunk[{i}] lang must be 'shell'");
    }
    let expected_ranges: &[(u32, u32)] = &[(1, 2), (4, 7), (9, 11), (13, 15)];
    let actual_ranges: Vec<(u32, u32)> = chunks.iter().map(|c| code_range(&c.source_spans[0])).collect();
    assert_eq!(actual_ranges, expected_ranges, "line ranges mismatch");
}

#[test]
fn single_long_paragraph_line_window_split() {
    let lines: Vec<String> = (1..=200).map(|i| format!("echo line {i}")).collect();
    let text = lines.join("\n") + "\n";
    assert_eq!(text.lines().count(), 200, "fixture must have exactly 200 lines");
    let doc = single_code_doc("shell", &text);
    let chunks = CodeTextParagraphV1Chunker.chunk(&doc, &tier3_policy("code-text-paragraph-v1")).expect("chunk");
    assert_eq!(chunks.len(), 3, "expected 3 window chunks for 200-line paragraph, got {}", chunks.len());
    let expected_ranges: &[(u32, u32)] = &[(1, 80), (61, 140), (121, 200)];
    let actual_ranges: Vec<(u32, u32)> = chunks.iter().map(|c| code_range(&c.source_spans[0])).collect();
    assert_eq!(actual_ranges, expected_ranges, "window ranges mismatch");
    let mut ids: Vec<String> = chunks.iter().map(|c| c.chunk_id.clone()).collect();
    ids.sort();
    ids.dedup();
    assert_eq!(ids.len(), chunks.len(), "oversize window chunks must have distinct chunk_ids");
}

#[test]
fn empty_file_emits_zero_chunks() {
    let doc = single_code_doc("shell", "");
    let chunks = CodeTextParagraphV1Chunker.chunk(&doc, &tier3_policy("code-text-paragraph-v1")).expect("chunk");
    assert_eq!(chunks.len(), 0, "empty file must yield 0 chunks, got {}", chunks.len());
}

#[test]
fn lang_field_preserved_from_input_doc() {
    let doc = single_code_doc("yaml", "key1: value1\nkey2: value2\n");
    let chunks = CodeTextParagraphV1Chunker.chunk(&doc, &tier3_policy("code-text-paragraph-v1")).expect("chunk");
    assert!(!chunks.is_empty(), "expected at least one chunk");
    assert_eq!(code_lang(&chunks[0].source_spans[0]).as_deref(), Some("yaml"));
    assert!(code_symbol(&chunks[0].source_spans[0]).is_none());
}

#[test]
fn paragraphs_are_maximal_runs_of_non_blank_lines() {
    let paras = split_paragraphs("a\nb\n\n  \nc\n");
    assert_eq!(paras.len(), 2);
    assert_eq!((paras[0].line_start, paras[0].line_end), (1, 2));
    assert_eq!((paras[1].line_start, paras[1].line_end), (5, 5));
    assert_eq!(paras[0].text, "a\nb");
    assert_eq!(paras[1].text, "c");
}

#[test]
fn no_code_block_emits_zero_chunks() {
    let doc = CanonicalDocument { doc_id: "t".repeat(32), blocks: vec![] };
    assert!(CodeTextParagraphV1Chunker.chunk(&doc, &tier3_policy("code-text-paragraph-v1")).unwrap().is_empty());
    assert!(K8sManifestResourceV1Chunker.chunk(&doc, &tier3_policy("k8s-manifest-resource-v1")).unwrap().is_empty());
    assert!(ManifestFileV1Chunker.chunk(&doc, &tier3_policy("manifest-file-v1")).unwrap().is_empty());
}

fn sample_k8s() -> String {
    "\
apiVersion: apps/v1
kind: Deployment
metadata:
  name: api-server
  namespace: prod
spec:
  replicas: 2
---
apiVersion: v1
kind: Service
metadata:
  name: api-server
  namespace: prod
spec:
  ports:
  - port: 80
"
    .to_string()
}

#[test]
fn k8s_multi_doc_emits_one_chunk_per_resource() {
    let doc = single_code_doc("yaml", &sample_k8s());
    let chunks = K8sManifestResourceV1Chunker.chunk(&doc, &tier3_policy("k8s-manifest-resource-v1")).expect("chunk");
    assert_eq!(chunks.len(), 2, "expected 2 k8s chunks, got {}: {chunks:#?}", chunks.len());
    let symbols: Vec<String> = chunks
        .iter()
        .map(|c| code_symbol(&c.source_spans[0]).expect("symbol must be Some for k8s chunks"))
        .collect();
    assert_eq!(symbols, vec!["Deployment/prod/api-server", "Service/prod/api-server"]);
    for chunk in &chunks {
        assert_eq!(code_lang(&chunk.source_spans[0]).as_deref(), Some("yaml"), "lang must be 'yaml'");
        assert_eq!(chunk.chunker_version, "k8s-manifest-resource-v1");
    }
    assert_eq!(code_range(&chunks[0].source_spans[0]), (1, 7));
    assert_eq!(code_range(&chunks[1].source_spans[0]), (9, 16));
}

#[test]
fn k8s_invalid_yaml_emits_zero_chunks() {
    let actually_bad = "apiVersion: v1\nkind: Service\nfoo: [\nbar\n";
    let doc = single_code_doc("yaml", actually_bad);
    let chunks = K8sManifestResourceV1Chunker
        .chunk(&doc, &tier3_policy("k8s-manifest-resource-v1"))
        .expect("chunk should not error — return Ok(vec![]) for invalid yaml");
    assert_eq!(chunks.len(), 0, "invalid YAML must yield 0 chunks, got {}", chunks.len());
}

#[test]
fn k8s_cluster_scoped_resource_symbol() {
    let yaml = "\
apiVersion: rbac.authorization.k8s.io/v1
kind: ClusterRole
metadata:
  name: cluster-admin
rules:
- apiGroups: [\"*\"]
  resources: [\"*\"]
  verbs: [\"*\"]
";
    let doc = single_code_doc("yaml", yaml);
    let chunks = K8sManifestResourceV1Chunker.chunk(&doc, &tier3_policy("k8s-manifest-resource-v1")).expect("chunk");
    assert_eq!(chunks.len(), 1, "expected 1 chunk for cluster-scoped resource, got {}", chunks.len());
    assert_eq!(code_symbol(&chunks[0].source_spans[0]).as_deref(), Some("ClusterRole/cluster-admin"));
    assert_eq!(code_lang(&chunks[0].source_spans[0]).as_deref(), Some("yaml"));
}

#[test]
fn k8s_document_without_kind_is_skipped() {
    let yaml = "a: 1\n---\napiVersion: v1\nkind: ConfigMap\nmetadata:\n  name: cm\n";
    let doc = single_code_doc("yaml", yaml);
    let chunks = K8sManifestResourceV1Chunker.chunk(&doc, &tier3_policy("k8s-manifest-resource-v1")).unwrap();
    assert_eq!(chunks.len(), 1);
    assert_eq!(code_symbol(&chunks[0].source_spans[0]).as_deref(), Some("ConfigMap/cm"));
}

#[test]
fn yaml_documents_split_on_separator_lines() {
    let docs = split_yaml_documents("a: 1\n---\nb: 2\n");
    assert_eq!(docs.len(), 2);
    assert_eq!(docs[0].text, "a: 1\n");
    assert_eq!(docs[1].text, "b: 2\n");
    assert_eq!((docs[0].line_start, docs[0].line_end), (1, 1));
    assert_eq!((docs[1].line_start, docs[1].line_end), (3, 3));
}

fn assert_single_manifest_chunk(lang: &str, text: &str) {
    let doc = single_code_doc(lang, text);
    let chunks = ManifestFileV1Chunker.chunk(&doc, &tier3_policy("manifest-file-v1")).expect("chunk");
    assert_eq!(chunks.len(), 1, "expected 1 chunk, got {}: {chunks:#?}", chunks.len());
    let span = chunks[0].source_spans.first().expect("at least one span");
    assert_eq!(code_range(span).0, 1, "line_start must be 1");
    assert_eq!(code_symbol(span).as_deref(), Some("<manifest>"), "symbol must be '<manifest>'");
    assert_eq!(code_lang(span).as_deref(), Some(lang));
    assert_eq!(chunks[0].chunker_version, "manifest-file-v1");
    assert_eq!(chunks[0].text, text);
}

#[test]
fn cargo_toml_single_chunk_with_toml_lang() {
    assert_single_manifest_chunk(
        "toml",
        "[package]\nname = \"sample\"\nversion = \"0.1.0\"\nedition = \"2021\"\n\n[dependencies]\nserde = \"1\"\n",
    );
}

#[test]
fn package_json_single_chunk_with_json_lang() {
    assert_single_manifest_chunk(
        "json",
        "{\n  \"name\": \"sample\",\n  \"version\": \"1.0.0\",\n  \"dependencies\": {\n    \"react\": \"^18.0.0\"\n  }\n}\n",
    );
}

#[test]
fn pom_xml_single_chunk_with_xml_lang() {
    assert_single_manifest_chunk(
        "xml",
        "<project>\n  <modelVersion>4.0.0</modelVersion>\n  <groupId>com.example</groupId>\n  <artifactId>sample</artifactId>\n</project>\n",
    );
}

#[test]
fn go_mod_single_chunk_with_go_mod_lang() {
    assert_single_manifest_chunk("go-mod", "module example.com/sample\n\ngo 1.22\n\nrequire github.com/pkg/errors v0.9.1\n");
}

#[test]
fn oversize_manifest_splits_into_line_windows() {
    let lines: Vec<String> = (0..500).map(|i| format!("key_{i} = \"value number {i} with padding\"")).collect();
    let text = lines.join("\n");
    let doc = single_code_doc("toml", &text);
    let chunks = ManifestFileV1Chunker.chunk(&doc, &tier3_policy("manifest-file-v1")).unwrap();
    assert!(chunks.len() >= 2, "oversize manifest must window-split, got {}", chunks.len());
    let mut ids: Vec<String> = chunks.iter().map(|c| c.chunk_id.clone()).collect();
    ids.sort();
    ids.dedup();
    assert_eq!(ids.len(), chunks.len());
    assert_eq!(code_range(&chunks[0].source_spans[0]).0, 1);
}
