use kebab::migrate::{
    annotated_default_document, migrate_document, reconcile, section_comment, step_1_to_2, ChangeKind,
    CURRENT_SCHEMA_VERSION,
};

const DEFAULTS: &str = "\
schema_version = 2

[workspace]
root = \"~/KnowledgeBase\"
exclude = [\".git/**\"]

[search]
default_k = 10
rrf_k = 60

[rag]
score_gate = 0.3

[ingest.code]
max_file_bytes = 262144

[logging]
ingest_log_enabled = true
ingest_log_dir = \"{state_dir}/logs\"
keep_recent_runs = 100
retention_days = 30
";

fn read_schema_version(text: &str) -> i64 {
    let doc: toml_edit::DocumentMut = text.parse().unwrap();
    doc.get("schema_version").and_then(toml_edit::Item::as_integer).unwrap_or(1)
}

#[test]
fn annotated_default_carries_header_and_section_comments() {
    let doc = annotated_default_document(DEFAULTS).expect("defaults parse");
    let text = doc.to_string();
    assert!(text.starts_with("# kebab config"), "{text}");
    assert!(text.contains("# 색인 대상 워크스페이스."), "{text}");
    assert!(text.contains("# code ingest skip 정책(.gitignore 자동 honor)."), "{text}");
    assert!(text.contains("[ingest.code]"));
    assert!(annotated_default_document("not [valid").is_none());
}

#[test]
fn reconcile_adds_missing_sections_preserving_user_values_and_comments() {
    let reference = annotated_default_document(DEFAULTS).unwrap();
    let mut user: toml_edit::DocumentMut = "\
schema_version = 1

[workspace]
root = \"/my/notes\"   # my workspace

[search]
default_k = 25
"
    .parse()
    .unwrap();
    let mut changes = Vec::new();
    reconcile(reference.as_table(), user.as_table_mut(), "", &mut changes);
    let out = user.to_string();
    assert!(out.contains("[ingest.code]"), "ingest.code not added:\n{out}");
    assert!(out.contains("root = \"/my/notes\""));
    assert!(out.contains("# my workspace"));
    assert!(out.contains("default_k = 25"));
    assert!(out.contains("rrf_k = 60"), "missing key not added:\n{out}");
    assert!(out.contains("code ingest skip 정책"));
    let paths: Vec<(ChangeKind, String)> = changes.iter().map(|c| (c.kind, c.path.clone())).collect();
    assert_eq!(
        paths,
        vec![
            (ChangeKind::AddedKey, "workspace.exclude".to_string()),
            (ChangeKind::AddedKey, "search.rrf_k".to_string()),
            (ChangeKind::AddedSection, "rag".to_string()),
            (ChangeKind::AddedSection, "ingest".to_string()),
            (ChangeKind::AddedSection, "logging".to_string()),
        ]
    );
    assert_eq!(changes[1].detail, "rrf_k 추가");
    assert_eq!(changes[2].detail, "답변 생성: prompt 템플릿·score gate·NLI.");
}

#[test]
fn reconcile_adds_missing_section_preserving_user_values_and_comments() {
    let user_text = "\
schema_version = 1

[workspace]
root = \"/my/notes\"   # 내 워크스페이스

[search]
default_k = 25
";
    let mut user: toml_edit::DocumentMut = user_text.parse().unwrap();
    let reference = annotated_default_document(DEFAULTS).unwrap();
    let ref_tbl = reference.as_table().clone();
    let mut changes = Vec::new();
    reconcile(&ref_tbl, user.as_table_mut(), "", &mut changes);
    let out = user.to_string();
    assert!(out.contains("[ingest.code]"), "ingest.code not added:\n{out}");
    assert!(out.contains("[logging]"), "logging not added");
    assert!(out.contains("root = \"/my/notes\""));
    assert!(out.contains("# 내 워크스페이스"));
    assert!(out.contains("default_k = 25"));
    assert!(out.contains("code ingest skip 정책"));
    assert!(changes.iter().any(|c| c.kind == ChangeKind::AddedSection && c.path == "ingest"));
    assert!(changes.iter().any(|c| c.kind == ChangeKind::AddedSection && c.path == "logging"));
}

#[test]
fn reconcile_does_not_overwrite_user_value_differing_from_default() {
    let reference = annotated_default_document(DEFAULTS).unwrap();
    let mut user: toml_edit::DocumentMut = "schema_version = 2\n\n[rag]\nscore_gate = 0.8\n".parse().unwrap();
    let mut changes = Vec::new();
    reconcile(reference.as_table(), user.as_table_mut(), "", &mut changes);
    let out = user.to_string();
    assert!(out.contains("score_gate = 0.8"), "user value clobbered:\n{out}");
    assert!(!changes.iter().any(|c| c.path == "rag.score_gate"));
}

#[test]
fn step_1_to_2_removes_deprecated_workspace_include() {
    let mut user: toml_edit::DocumentMut = "[workspace]\nroot = \"/n\"\ninclude = [\"*.md\"]\n".parse().unwrap();
    let mut changes = Vec::new();
    step_1_to_2(&mut user, &mut changes);
    let out = user.to_string();
    assert!(!out.contains("include"), "include not removed:\n{out}");
    assert!(changes.iter().any(|c| c.kind == ChangeKind::RemovedDeprecated && c.path == "workspace.include"));
    let mut changes2 = Vec::new();
    step_1_to_2(&mut user, &mut changes2);
    assert!(changes2.is_empty());
}

#[test]
fn migrate_document_stamps_version_and_is_idempotent() {
    let reference = annotated_default_document(DEFAULTS).unwrap();
    let old = "schema_version = 1\n\n[workspace]\nroot = \"/n\"\ninclude = [\"*.md\"]\n";
    let outcome = migrate_document(old, &reference);
    assert_eq!(outcome.from_schema_version, 1);
    assert_eq!(outcome.to_schema_version, CURRENT_SCHEMA_VERSION);
    assert!(outcome.changed());
    assert!(!outcome.new_text.contains("include"));
    assert!(outcome.new_text.contains("[ingest.code]"));
    assert_eq!(read_schema_version(&outcome.new_text), CURRENT_SCHEMA_VERSION as i64);
    let again = migrate_document(&outcome.new_text, &reference);
    assert!(!again.changed(), "not idempotent: {:?}", again.changes);
    assert_eq!(again.new_text, outcome.new_text);
}

#[test]
fn migrate_document_missing_schema_version_treated_as_v1() {
    let reference = annotated_default_document(DEFAULTS).unwrap();
    let outcome = migrate_document("[workspace]\nroot = \"/n\"\n", &reference);
    assert_eq!(outcome.from_schema_version, 1);
    assert_eq!(read_schema_version(&outcome.new_text), CURRENT_SCHEMA_VERSION as i64);
}

#[test]
fn migrate_document_leaves_invalid_toml_alone() {
    let reference = annotated_default_document(DEFAULTS).unwrap();
    let outcome = migrate_document("this is not [valid toml", &reference);
    assert_eq!(outcome.from_schema_version, 1);
    assert_eq!(outcome.to_schema_version, CURRENT_SCHEMA_VERSION);
    assert!(!outcome.changed());
    assert_eq!(outcome.new_text, "this is not [valid toml");
}

#[test]
fn version_2_file_skips_the_earlier_step() {
    let reference = annotated_default_document(DEFAULTS).unwrap();
    let text = "schema_version = 2\n\n[workspace]\nroot = \"/n\"\ninclude = [\"*.md\"]\n";
    let outcome = migrate_document(text, &reference);
    assert_eq!(outcome.from_schema_version, 2);
    assert!(outcome.new_text.contains("include"), "steps run only below the current version");
    assert!(!outcome.changes.iter().any(|c| c.kind == ChangeKind::RemovedDeprecated));
}

#[test]
fn section_comments_are_known_for_default_sections_only() {
    assert_eq!(section_comment("models.llm"), Some("# Ollama host:port + 모델."));
    assert_eq!(section_comment("logging"), Some("# ingest 로그(기본 on, ~/.local/state/kebab/logs)."));
    assert_eq!(section_comment("nope"), None);
}

const USER_V2: &str = "\
# my kebab config
schema_version = 2

[workspace]
root = \"/Users/user/Obsidian/Default\"

[chunking]
target_tokens = 600   # mine

[image.ocr]
enabled = true
engine = \"paddle-onnx\"
# engine = \"ollama-vision\"

[indexing]
parallelism = 4
";

#[test]
fn version_2_file_moves_sections_under_ingest_and_gains_default_source() {
    let reference = annotated_default_document(DEFAULTS).unwrap();
    let out = migrate_document(USER_V2, &reference);
    assert_eq!(out.from_schema_version, 2);
    assert_eq!(out.to_schema_version, CURRENT_SCHEMA_VERSION);
    assert_eq!(CURRENT_SCHEMA_VERSION, 5);
    let t = &out.new_text;
    assert!(t.starts_with("# my kebab config"), "{t}");
    assert!(t.contains("root = \"/Users/user/Obsidian/Default\""), "{t}");
    assert!(t.contains("[[workspace.sources]]"), "{t}");
    assert!(t.contains("id = \"default\""), "{t}");
    assert!(t.contains("[ingest.chunking]"), "{t}");
    assert!(t.contains("target_tokens = 600   # mine"), "{t}");
    assert!(t.contains("[ingest.image.ocr]"), "{t}");
    assert!(t.contains("[ingest.ocr]"), "{t}");
    assert!(t.contains("engine = \"paddle-onnx\""), "{t}");
    assert!(t.contains("# engine = \"ollama-vision\""), "{t}");
    assert!(!t.contains("\n[chunking]"), "{t}");
    assert!(!t.contains("\n[image.ocr]"), "{t}");
    assert!(!t.contains("\n[indexing]"), "{t}");
    assert_eq!(read_schema_version(t), 5);
    let moved: Vec<String> = out.changes.iter().filter(|c| c.kind == ChangeKind::Moved).map(|c| c.path.clone()).collect();
    assert_eq!(moved, vec!["chunking", "image", "indexing", "ingest.image.ocr.engine"]);
    let again = migrate_document(t, &reference);
    assert!(!again.changed(), "rerun changed: {:?}", again.changes);
    assert_eq!(again.new_text, *t);
}
