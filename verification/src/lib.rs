//! Local knowledge-base chunking, configuration and CLI helpers.

pub mod chunk_ids;
pub mod cli;
pub mod code_text_paragraph;
pub mod command;
pub mod code_ts_ast;
pub mod config;
pub mod error_classify;
pub mod flatten;
pub mod hashing;
pub mod ingest_progress;
pub mod k8s_manifest;
pub mod korean;
pub mod manifest_file;
pub mod md_heading;
pub mod md_heading_v2;
pub mod migrate;
pub mod model;
pub mod oversize;
pub mod paths;
pub mod plain;
pub mod pdf_page;
pub mod progress;
pub mod render;
pub mod text;
pub mod tier2;
