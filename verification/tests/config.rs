use kebab::config::{
    parse_bool, parse_u32, parse_uint, split_list, Config, IngestCodeCfg, PdfOcrCfg, WorkspaceCfg,
};

fn env_of(pairs: &[(&str, &str)]) -> Vec<(String, String)> {
    pairs.iter().map(|(k, v)| (k.to_string(), v.to_string())).collect()
}

#[test]
fn defaults_match_design_64_score_gate() {
    let c = Config::defaults();
    assert_eq!(f32::from_bits(c.rag.score_gate_bits), 0.30);
    assert_eq!(c.chunking.target_tokens, 500);
    assert_eq!(c.models.embedding.model, "multilingual-e5-large");
    assert_eq!(c.models.embedding.dimensions, 1024);
    assert_eq!(c.search.rrf_k, 60);
}

#[test]
fn defaults_rag_prompt_template_version_is_rag_v2() {
    let c = Config::defaults();
    assert_eq!(c.rag.prompt_template_version, "rag-v2");
}

#[test]
fn env_override_search_k() {
    let c = Config::defaults().apply_env(&env_of(&[("KEBAB_SEARCH_DEFAULT_K", "25")]));
    assert_eq!(c.search.default_k, 25);
}

#[test]
fn env_unknown_key_is_ignored() {
    let baseline = Config::defaults();
    let c = Config::defaults().apply_env(&env_of(&[("KEBAB_NOPE_FOO", "garbage")]));
    assert_eq!(format!("{c:?}"), format!("{baseline:?}"));
}

#[test]
fn env_overrides_chunking_target_tokens() {
    let c = Config::defaults().apply_env(&env_of(&[("KEBAB_CHUNKING_TARGET_TOKENS", "777")]));
    assert_eq!(c.chunking.target_tokens, 777);
}

#[test]
fn default_llm_request_timeout_secs_is_300() {
    assert_eq!(Config::defaults().models.llm.request_timeout_secs, 300);
}

#[test]
fn env_overrides_models_llm_request_timeout_secs() {
    let c = Config::defaults()
        .apply_env(&env_of(&[("KEBAB_MODELS_LLM_REQUEST_TIMEOUT_SECS", "1200")]));
    assert_eq!(c.models.llm.request_timeout_secs, 1200);
}

#[test]
fn env_overrides_models_llm_endpoint() {
    let c = Config::defaults()
        .apply_env(&env_of(&[("KEBAB_MODELS_LLM_ENDPOINT", "http://10.0.0.1:11434")]));
    assert_eq!(c.models.llm.endpoint, "http://10.0.0.1:11434");
}

#[test]
fn env_overrides_indexing_watch_filesystem_bool() {
    let c = Config::defaults().apply_env(&env_of(&[("KEBAB_INDEXING_WATCH_FILESYSTEM", "true")]));
    assert!(c.indexing.watch_filesystem);
}

#[test]
fn image_ocr_defaults_disabled_with_ollama_vision() {
    let c = Config::defaults();
    assert!(!c.image.ocr.enabled);
    assert_eq!(c.image.ocr.engine, "ollama-vision");
    assert_eq!(c.image.ocr.model, "gemma4:e4b");
    assert_eq!(c.image.ocr.languages, vec!["eng", "kor"]);
    assert_eq!(c.image.ocr.max_pixels, 1600);
}

#[test]
fn default_ocr_request_timeout_secs_is_300() {
    assert_eq!(Config::defaults().image.ocr.request_timeout_secs, 300);
}

#[test]
fn env_overrides_image_ocr_request_timeout_secs() {
    let c = Config::defaults().apply_env(&env_of(&[("KEBAB_IMAGE_OCR_REQUEST_TIMEOUT_SECS", "900")]));
    assert_eq!(c.image.ocr.request_timeout_secs, 900);
}

#[test]
fn default_multi_hop_max_depth_is_3() {
    assert_eq!(Config::defaults().rag.multi_hop_max_depth, 3);
}

#[test]
fn default_multi_hop_max_sub_queries_per_iter_is_5() {
    assert_eq!(Config::defaults().rag.multi_hop_max_sub_queries_per_iter, 5);
}

#[test]
fn default_multi_hop_max_pool_chunks_is_15() {
    assert_eq!(Config::defaults().rag.multi_hop_max_pool_chunks, 15);
}

#[test]
fn env_overrides_multi_hop_knobs() {
    let c = Config::defaults().apply_env(&env_of(&[
        ("KEBAB_RAG_MULTI_HOP_MAX_DEPTH", "5"),
        ("KEBAB_RAG_MULTI_HOP_MAX_SUB_QUERIES_PER_ITER", "7"),
        ("KEBAB_RAG_MULTI_HOP_MAX_POOL_CHUNKS", "50"),
    ]));
    assert_eq!(c.rag.multi_hop_max_depth, 5);
    assert_eq!(c.rag.multi_hop_max_sub_queries_per_iter, 7);
    assert_eq!(c.rag.multi_hop_max_pool_chunks, 50);
}

#[test]
fn default_nli_threshold_is_zero() {
    assert_eq!(f32::from_bits(Config::defaults().rag.nli_threshold_bits), 0.0);
}

#[test]
fn default_nli_model_is_xenova_mdeberta() {
    assert_eq!(
        Config::defaults().models.nli.model,
        "Xenova/mDeBERTa-v3-base-xnli-multilingual-nli-2mil7"
    );
    assert_eq!(Config::defaults().models.nli.provider, "onnx");
}

#[test]
fn env_override_nli_model_and_provider() {
    let c = Config::defaults().apply_env(&env_of(&[
        ("KEBAB_MODELS_NLI_MODEL", "user/custom-nli-model"),
        ("KEBAB_MODELS_NLI_PROVIDER", "candle"),
    ]));
    assert_eq!(c.models.nli.model, "user/custom-nli-model");
    assert_eq!(c.models.nli.provider, "candle");
}

#[test]
fn env_malformed_nli_threshold_keeps_prior_value() {
    let c = Config::defaults().apply_env(&env_of(&[("KEBAB_RAG_NLI_THRESHOLD", "not-a-float")]));
    assert_eq!(
        f32::from_bits(c.rag.nli_threshold_bits),
        0.0,
        "malformed env value must keep the default unchanged"
    );
}

#[test]
fn image_ocr_env_overrides() {
    let c = Config::defaults().apply_env(&env_of(&[
        ("KEBAB_IMAGE_OCR_ENABLED", "true"),
        ("KEBAB_IMAGE_OCR_MODEL", "gemma4:31b"),
        ("KEBAB_IMAGE_OCR_ENDPOINT", "http://192.168.0.47:11434"),
        ("KEBAB_IMAGE_OCR_LANGUAGES", "eng, kor, jpn"),
        ("KEBAB_IMAGE_OCR_MAX_PIXELS", "2048"),
    ]));
    assert!(c.image.ocr.enabled);
    assert_eq!(c.image.ocr.model, "gemma4:31b");
    assert_eq!(c.image.ocr.endpoint.as_deref(), Some("http://192.168.0.47:11434"));
    assert_eq!(c.image.ocr.languages, vec!["eng", "kor", "jpn"]);
    assert_eq!(c.image.ocr.max_pixels, 2048);
}

#[test]
fn image_caption_defaults_disabled() {
    let c = Config::defaults();
    assert!(!c.image.caption.enabled);
    assert_eq!(c.image.caption.max_pixels, 768);
    assert_eq!(c.image.caption.prompt_template_version, "caption-v1");
}

#[test]
fn image_caption_env_overrides() {
    let c = Config::defaults().apply_env(&env_of(&[
        ("KEBAB_IMAGE_CAPTION_ENABLED", "true"),
        ("KEBAB_IMAGE_CAPTION_MAX_PIXELS", "1024"),
        ("KEBAB_IMAGE_CAPTION_PROMPT_TEMPLATE_VERSION", "caption-v2"),
    ]));
    assert!(c.image.caption.enabled);
    assert_eq!(c.image.caption.max_pixels, 1024);
    assert_eq!(c.image.caption.prompt_template_version, "caption-v2");
}

#[test]
fn image_ocr_endpoint_empty_env_value_is_none() {
    let c = Config::defaults().apply_env(&env_of(&[("KEBAB_IMAGE_OCR_ENDPOINT", "")]));
    assert_eq!(c.image.ocr.endpoint, None);
}

#[test]
fn workspace_cfg_has_only_root_and_exclude_fields() {
    let ws = Config::defaults().workspace;
    let WorkspaceCfg { root: _, exclude: _ } = &ws;
}

#[test]
fn default_stale_threshold_is_30() {
    assert_eq!(Config::defaults().search.stale_threshold_days, 30);
}

#[test]
fn env_override_stale_threshold() {
    let c = Config::defaults().apply_env(&env_of(&[("KEBAB_SEARCH_STALE_THRESHOLD_DAYS", "7")]));
    assert_eq!(c.search.stale_threshold_days, 7);
}

#[test]
fn env_negative_threshold_silently_ignored() {
    let c = Config::defaults().apply_env(&env_of(&[("KEBAB_SEARCH_STALE_THRESHOLD_DAYS", "-5")]));
    assert_eq!(c.search.stale_threshold_days, 30, "env path: malformed value must leave the default unchanged");
}

#[test]
fn xdg_paths_honor_env() {
    let p = Config::xdg_config_path(&Some("/tmp/kebabtest-xdg-config".to_string()), &Some("/home/u".to_string()));
    assert_eq!(p, "/tmp/kebabtest-xdg-config/kebab/config.toml");
}

#[test]
fn xdg_config_path_falls_back_to_home() {
    let p = Config::xdg_config_path(&None, &Some("/home/u".to_string()));
    assert_eq!(p, "/home/u/.config/kebab/config.toml");
    let empty = Config::xdg_config_path(&Some(String::new()), &Some("/home/u".to_string()));
    assert_eq!(empty, "/home/u/.config/kebab/config.toml");
}

#[test]
fn pdf_ocr_request_timeout_default_is_60s() {
    let cfg = PdfOcrCfg::defaults();
    assert_eq!(cfg.request_timeout_secs, 60, "pdf.ocr.request_timeout_secs default must be 60s");
}

#[test]
fn ingest_code_defaults_via_constructor() {
    let cfg = IngestCodeCfg::default();
    assert_eq!(cfg.max_file_bytes, 262_144);
    assert_eq!(cfg.max_file_lines, 5_000);
    assert!(cfg.skip_generated_header);
    assert!(cfg.extra_skip_globs.is_empty());
    assert_eq!(cfg.ast_chunk_max_lines, 200);
    assert_eq!(cfg.fallback_lines_per_chunk, 80);
    assert_eq!(cfg.fallback_lines_overlap, 20);
}

#[test]
fn last_env_entry_for_a_key_wins() {
    let c = Config::defaults().apply_env(&env_of(&[
        ("KEBAB_SEARCH_DEFAULT_K", "25"),
        ("KEBAB_SEARCH_DEFAULT_K", "40"),
    ]));
    assert_eq!(c.search.default_k, 40);
}

#[test]
fn malformed_number_keeps_prior_value() {
    let c = Config::defaults().apply_env(&env_of(&[
        ("KEBAB_SEARCH_DEFAULT_K", "25"),
        ("KEBAB_SEARCH_DEFAULT_K", "lots"),
    ]));
    assert_eq!(c.search.default_k, 25);
}

#[test]
fn number_parsing_is_digits_only_and_bounded() {
    assert_eq!(parse_uint("123", 1000), Some(123));
    assert_eq!(parse_uint("", 1000), None);
    assert_eq!(parse_uint("+5", 1000), Some(5));
    assert_eq!(parse_uint("+", 1000), None);
    assert_eq!(parse_uint("-5", 1000), None);
    assert_eq!(parse_uint("1001", 1000), None);
    assert_eq!(parse_u32("4294967295"), Some(u32::MAX));
    assert_eq!(parse_u32("4294967296"), None);
}

#[test]
fn bool_parsing_accepts_documented_spellings() {
    for s in ["1", "true", "TRUE", "yes", "Yes"] {
        assert!(parse_bool(s), "{s} should be true");
    }
    for s in ["0", "false", "no", "on", "off", "maybe", ""] {
        assert!(!parse_bool(s), "{s} should be false");
    }
}

#[test]
fn list_values_are_trimmed_and_blank_items_dropped() {
    assert_eq!(split_list(" eng , ,kor,"), vec!["eng".to_string(), "kor".to_string()]);
    assert!(split_list("").is_empty());
}

#[test]
fn source_dir_is_recorded() {
    let c = Config::defaults();
    assert_eq!(c.source_dir(), None);
    let c = c.with_source_dir("/etc/kebab".to_string());
    assert_eq!(c.source_dir(), Some("/etc/kebab".to_string()));
}

#[test]
fn config_errors_render_their_messages() {
    let e = kebab::config::ConfigInvalid { path: "/tmp/x.toml".into(), cause: "parse_failed: bad".into() };
    assert_eq!(e.message(), "config invalid at /tmp/x.toml: parse_failed: bad");
    let n = kebab::config::ConfigNotFound { path: "/nope.toml".into() };
    assert_eq!(n.message(), "config file does not exist: /nope.toml");
}

#[test]
fn logging_defaults_are_enabled_with_state_dir_placeholder() {
    let cfg = Config::defaults();
    assert!(cfg.logging.ingest_log_enabled);
    assert_eq!(
        std::path::PathBuf::from(&cfg.logging.ingest_log_dir),
        std::path::PathBuf::from("{state_dir}/logs")
    );
    assert_eq!(cfg.logging.keep_recent_runs, 100);
    assert_eq!(cfg.logging.retention_days, 30);
}

#[test]
fn apply_env_twice_equals_once_and_parts_compose() {
    let env = env_of(&[("KEBAB_SEARCH_DEFAULT_K", "25"), ("KEBAB_CHUNKING_TARGET_TOKENS", "777")]);
    let once = Config::defaults().apply_env(&env);
    let twice = Config::defaults().apply_env(&env).apply_env(&env);
    assert_eq!(once.search.default_k, twice.search.default_k);
    assert_eq!(once.chunking.target_tokens, twice.chunking.target_tokens);
    let e1 = env_of(&[("KEBAB_SEARCH_DEFAULT_K", "25")]);
    let e2 = env_of(&[("KEBAB_CHUNKING_TARGET_TOKENS", "777")]);
    let a = Config::defaults().apply_env(&e1).apply_env(&e2);
    let b = Config::defaults().apply_env(&e2).apply_env(&e1);
    assert_eq!(a.search.default_k, 25);
    assert_eq!(a.chunking.target_tokens, 777);
    assert_eq!(a.search.default_k, b.search.default_k);
    assert_eq!(a.chunking.target_tokens, b.chunking.target_tokens);
}
