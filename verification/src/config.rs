//! Configuration schema, its defaults, and `KEBAB_*` environment overrides.
//!
//! Layer order: defaults, then the config file (read by the caller), then
//! the environment. Floating-point settings are carried as the IEEE-754 bits
//! of their `f32` value; their environment keys are applied by the caller.

use vstd::prelude::*;
use crate::korean::{is_ws, is_ws_char};
use crate::render::keep_nonempty;
use crate::text::{chars_of, split_chars, split_on, string_from_chars, strings_view};
use crate::tier2::opt_view;

verus! {

/// Default search cache capacity (entries).
pub fn default_cache_capacity() -> (res: usize)
    ensures
        res == 256,
{
    256
}

/// Default LLM request timeout in seconds.
pub fn default_llm_request_timeout_secs() -> (res: u64)
    ensures
        res == 300,
{
    300
}

/// Default staleness threshold in days.
pub fn default_stale_threshold_days() -> (res: u32)
    ensures
        res == 30,
{
    30
}

/// Default multi-hop depth cap.
pub fn default_multi_hop_max_depth() -> (res: u32)
    ensures
        res == 3,
{
    3
}

/// Default sub-query cap per multi-hop iteration.
pub fn default_multi_hop_max_sub_queries_per_iter() -> (res: u32)
    ensures
        res == 5,
{
    5
}

/// Default cap on the multi-hop chunk pool.
pub fn default_multi_hop_max_pool_chunks() -> (res: u32)
    ensures
        res == 15,
{
    15
}

/// Default image-OCR request timeout in seconds.
pub fn default_ocr_request_timeout_secs() -> (res: u64)
    ensures
        res == 300,
{
    300
}

/// Default PDF-OCR request timeout in seconds.
pub fn default_pdf_ocr_request_timeout_secs() -> (res: u64)
    ensures
        res == 60,
{
    60
}

/// Default minimum characters per PDF page before OCR.
pub fn default_pdf_ocr_min_char_count() -> (res: u32)
    ensures
        res == 20,
{
    20
}

/// Default PDF-OCR page language hint: `kor`.
pub fn default_pdf_ocr_lang_hint() -> (res: Option<String>)
    ensures
        opt_view(res) == Some("kor"@),
{
    Some(String::from_str("kor"))
}

/// Workspace to index.
#[derive(Debug)]
pub struct WorkspaceCfg {
    pub root: String,
    pub exclude: Vec<String>,
}

/// `c` holds the defaults of [`WorkspaceCfg`].
pub open spec fn workspacecfg_is_default(c: WorkspaceCfg) -> bool {
    &&& c.root@ == "~/KnowledgeBase"@
    &&& strings_view(c.exclude@) == seq![".git/**"@, "node_modules/**"@, ".obsidian/**"@]
}

/// Storage paths (templates with `{data_dir}`, `${XDG_DATA_HOME:-..}`, `~`).
#[derive(Debug)]
pub struct StorageCfg {
    pub data_dir: String,
    pub sqlite: String,
    pub vector_dir: String,
    pub asset_dir: String,
    pub artifact_dir: String,
    pub model_dir: String,
    pub runs_dir: String,
    pub copy_threshold_mb: u64,
}

/// `c` holds the defaults of [`StorageCfg`].
pub open spec fn storagecfg_is_default(c: StorageCfg) -> bool {
    &&& c.data_dir@ == "${XDG_DATA_HOME:-~/.local/share}/kebab"@
    &&& c.sqlite@ == "{data_dir}/kebab.sqlite"@
    &&& c.vector_dir@ == "{data_dir}/lancedb"@
    &&& c.asset_dir@ == "{data_dir}/assets"@
    &&& c.artifact_dir@ == "{data_dir}/artifacts"@
    &&& c.model_dir@ == "{data_dir}/models"@
    &&& c.runs_dir@ == "{data_dir}/runs"@
    &&& c.copy_threshold_mb == 100
}

/// Parallelism and filesystem watching.
#[derive(Debug)]
pub struct IndexingCfg {
    pub max_parallel_extractors: u32,
    pub max_parallel_embeddings: u32,
    pub watch_filesystem: bool,
}

/// `c` holds the defaults of [`IndexingCfg`].
pub open spec fn indexingcfg_is_default(c: IndexingCfg) -> bool {
    &&& c.max_parallel_extractors == 2
    &&& c.max_parallel_embeddings == 1
    &&& c.watch_filesystem == false
}

/// Chunk size, overlap and heading handling.
#[derive(Debug)]
pub struct ChunkingCfg {
    pub target_tokens: usize,
    pub overlap_tokens: usize,
    pub respect_markdown_headings: bool,
    pub chunker_version: String,
}

/// `c` holds the defaults of [`ChunkingCfg`].
pub open spec fn chunkingcfg_is_default(c: ChunkingCfg) -> bool {
    &&& c.target_tokens == 500
    &&& c.overlap_tokens == 80
    &&& c.respect_markdown_headings == true
    &&& c.chunker_version@ == "md-heading-v1"@
}

/// The sentence-embedding model.
#[derive(Debug)]
pub struct EmbeddingModelCfg {
    pub provider: String,
    pub model: String,
    pub version: String,
    pub dimensions: usize,
    pub batch_size: usize,
}

/// `c` holds the defaults of [`EmbeddingModelCfg`].
pub open spec fn embeddingmodelcfg_is_default(c: EmbeddingModelCfg) -> bool {
    &&& c.provider@ == "fastembed"@
    &&& c.model@ == "multilingual-e5-large"@
    &&& c.version@ == "v1"@
    &&& c.dimensions == 1024
    &&& c.batch_size == 64
}

/// The answering LLM. `temperature_bits` holds the IEEE-754 bits of the `f32` temperature.
#[derive(Debug)]
pub struct LlmCfg {
    pub provider: String,
    pub model: String,
    pub context_tokens: usize,
    pub endpoint: String,
    pub temperature_bits: u32,
    pub seed: u64,
    pub request_timeout_secs: u64,
}

/// `c` holds the defaults of [`LlmCfg`].
pub open spec fn llmcfg_is_default(c: LlmCfg) -> bool {
    &&& c.provider@ == "ollama"@
    &&& c.model@ == "gemma4:e4b"@
    &&& c.context_tokens == 32768
    &&& c.endpoint@ == "http://127.0.0.1:11434"@
    &&& c.temperature_bits == 0
    &&& c.seed == 0
    &&& c.request_timeout_secs == 300
}

/// The NLI (groundedness) verifier model.
#[derive(Debug)]
pub struct NliCfg {
    pub model: String,
    pub provider: String,
}

/// `c` holds the defaults of [`NliCfg`].
pub open spec fn nlicfg_is_default(c: NliCfg) -> bool {
    &&& c.model@ == "Xenova/mDeBERTa-v3-base-xnli-multilingual-nli-2mil7"@
    &&& c.provider@ == "onnx"@
}

/// Search defaults, cache and staleness.
#[derive(Debug)]
pub struct SearchCfg {
    pub default_k: usize,
    pub hybrid_fusion: String,
    pub rrf_k: u32,
    pub snippet_chars: usize,
    pub cache_capacity: usize,
    pub stale_threshold_days: u32,
}

/// `c` holds the defaults of [`SearchCfg`].
pub open spec fn searchcfg_is_default(c: SearchCfg) -> bool {
    &&& c.default_k == 10
    &&& c.hybrid_fusion@ == "rrf"@
    &&& c.rrf_k == 60
    &&& c.snippet_chars == 220
    &&& c.cache_capacity == 256
    &&& c.stale_threshold_days == 30
}

/// Answer generation. `score_gate_bits` and `nli_threshold_bits` hold IEEE-754 `f32` bits.
#[derive(Debug)]
pub struct RagCfg {
    pub prompt_template_version: String,
    pub score_gate_bits: u32,
    pub explain_default: bool,
    pub max_context_tokens: usize,
    pub multi_hop_max_depth: u32,
    pub multi_hop_max_sub_queries_per_iter: u32,
    pub multi_hop_max_pool_chunks: u32,
    pub nli_threshold_bits: u32,
}

/// `c` holds the defaults of [`RagCfg`].
pub open spec fn ragcfg_is_default(c: RagCfg) -> bool {
    &&& c.prompt_template_version@ == "rag-v2"@
    &&& c.score_gate_bits == 0x3E99999A
    &&& c.explain_default == false
    &&& c.max_context_tokens == 8000
    &&& c.multi_hop_max_depth == 3
    &&& c.multi_hop_max_sub_queries_per_iter == 5
    &&& c.multi_hop_max_pool_chunks == 15
    &&& c.nli_threshold_bits == 0
}

/// Image OCR (off by default: one model call per asset).
#[derive(Debug)]
pub struct OcrCfg {
    pub enabled: bool,
    pub engine: String,
    pub model: String,
    pub endpoint: Option<String>,
    pub languages: Vec<String>,
    pub max_pixels: u32,
    pub request_timeout_secs: u64,
}

/// `c` holds the defaults of [`OcrCfg`].
pub open spec fn ocrcfg_is_default(c: OcrCfg) -> bool {
    &&& c.enabled == false
    &&& c.engine@ == "ollama-vision"@
    &&& c.model@ == "gemma4:e4b"@
    &&& c.endpoint is None
    &&& strings_view(c.languages@) == seq!["eng"@, "kor"@]
    &&& c.max_pixels == 1600
    &&& c.request_timeout_secs == 300
}

/// Image captioning (off by default).
#[derive(Debug)]
pub struct CaptionCfg {
    pub enabled: bool,
    pub max_pixels: u32,
    pub prompt_template_version: String,
}

/// `c` holds the defaults of [`CaptionCfg`].
pub open spec fn captioncfg_is_default(c: CaptionCfg) -> bool {
    &&& c.enabled == false
    &&& c.max_pixels == 768
    &&& c.prompt_template_version@ == "caption-v1"@
}

/// Scanned-PDF OCR (off by default). `valid_ratio_threshold_bits` holds IEEE-754 `f32` bits.
#[derive(Debug)]
pub struct PdfOcrCfg {
    pub enabled: bool,
    pub always_on: bool,
    pub engine: String,
    pub model: String,
    pub endpoint: Option<String>,
    pub languages: Vec<String>,
    pub max_pixels: u32,
    pub request_timeout_secs: u64,
    pub valid_ratio_threshold_bits: u32,
    pub min_char_count: u32,
    pub lang_hint: Option<String>,
}

/// `c` holds the defaults of [`PdfOcrCfg`].
pub open spec fn pdfocrcfg_is_default(c: PdfOcrCfg) -> bool {
    &&& c.enabled == false
    &&& c.always_on == false
    &&& c.engine@ == "ollama-vision"@
    &&& c.model@ == "qwen2.5vl:3b"@
    &&& c.endpoint is None
    &&& strings_view(c.languages@) == seq!["eng"@, "kor"@]
    &&& c.max_pixels == 2048
    &&& c.request_timeout_secs == 60
    &&& c.valid_ratio_threshold_bits == 0x3F000000
    &&& c.min_char_count == 20
    &&& opt_view(c.lang_hint) == Some("kor"@)
}

/// TUI palette (`dark` or `light`).
#[derive(Debug)]
pub struct UiCfg {
    pub theme: String,
}

/// `c` holds the defaults of [`UiCfg`].
pub open spec fn uicfg_is_default(c: UiCfg) -> bool {
    &&& c.theme@ == "dark"@
}

/// The per-run ingest log: whether it is written, where (`{state_dir}` is
/// the XDG state directory), how many recent runs are kept and for how
/// many days.
#[derive(Debug)]
pub struct LoggingCfg {
    pub ingest_log_enabled: bool,
    pub ingest_log_dir: String,
    pub keep_recent_runs: u32,
    pub retention_days: u32,
}

/// `c` holds the defaults of [`LoggingCfg`].
pub open spec fn loggingcfg_is_default(c: LoggingCfg) -> bool {
    &&& c.ingest_log_enabled == true
    &&& c.ingest_log_dir@ == "{state_dir}/logs"@
    &&& c.keep_recent_runs == 100
    &&& c.retention_days == 30
}

/// `old` and `new` hold the same settings.
pub open spec fn loggingcfg_same(old: LoggingCfg, new: LoggingCfg) -> bool {
    &&& new.ingest_log_enabled == old.ingest_log_enabled
    &&& new.ingest_log_dir@ == old.ingest_log_dir@
    &&& new.keep_recent_runs == old.keep_recent_runs
    &&& new.retention_days == old.retention_days
}

/// Code ingest skip policy and chunk sizes.
#[derive(Debug)]
pub struct IngestCodeCfg {
    pub skip_generated_header: bool,
    pub max_file_bytes: u64,
    pub max_file_lines: u32,
    pub extra_skip_globs: Vec<String>,
    pub ast_chunk_max_lines: u32,
    pub fallback_lines_per_chunk: u32,
    pub fallback_lines_overlap: u32,
}

/// `c` holds the defaults of [`IngestCodeCfg`].
pub open spec fn ingestcodecfg_is_default(c: IngestCodeCfg) -> bool {
    &&& c.skip_generated_header == true
    &&& c.max_file_bytes == 262144
    &&& c.max_file_lines == 5000
    &&& strings_view(c.extra_skip_globs@) == Seq::<Seq<char>>::empty()
    &&& c.ast_chunk_max_lines == 200
    &&& c.fallback_lines_per_chunk == 80
    &&& c.fallback_lines_overlap == 20
}

/// The models.
#[derive(Debug)]
pub struct ModelsCfg {
    pub embedding: EmbeddingModelCfg,
    pub llm: LlmCfg,
    pub nli: NliCfg,
}

/// `c` holds the defaults of [`ModelsCfg`].
pub open spec fn modelscfg_is_default(c: ModelsCfg) -> bool {
    &&& embeddingmodelcfg_is_default(c.embedding)
    &&& llmcfg_is_default(c.llm)
    &&& nlicfg_is_default(c.nli)
}

/// Image pipeline settings.
#[derive(Debug)]
pub struct ImageCfg {
    pub ocr: OcrCfg,
    pub caption: CaptionCfg,
}

/// `c` holds the defaults of [`ImageCfg`].
pub open spec fn imagecfg_is_default(c: ImageCfg) -> bool {
    &&& ocrcfg_is_default(c.ocr)
    &&& captioncfg_is_default(c.caption)
}

/// PDF pipeline settings.
#[derive(Debug)]
pub struct PdfCfg {
    pub ocr: PdfOcrCfg,
}

/// `c` holds the defaults of [`PdfCfg`].
pub open spec fn pdfcfg_is_default(c: PdfCfg) -> bool {
    &&& pdfocrcfg_is_default(c.ocr)
}

/// Ingest settings per medium.
#[derive(Debug)]
pub struct IngestCfg {
    pub code: IngestCodeCfg,
}

/// `c` holds the defaults of [`IngestCfg`].
pub open spec fn ingestcfg_is_default(c: IngestCfg) -> bool {
    &&& ingestcodecfg_is_default(c.code)
}

/// The whole configuration.
#[derive(Debug)]
pub struct Config {
    pub schema_version: u32,
    pub workspace: WorkspaceCfg,
    pub storage: StorageCfg,
    pub indexing: IndexingCfg,
    pub chunking: ChunkingCfg,
    pub models: ModelsCfg,
    pub search: SearchCfg,
    pub rag: RagCfg,
    pub image: ImageCfg,
    pub ui: UiCfg,
    pub ingest: IngestCfg,
    pub pdf: PdfCfg,
    pub logging: LoggingCfg,
    /// Directory of the config file this was loaded from, if any.
    pub source_dir: Option<String>,
}

impl WorkspaceCfg {
    /// The built-in defaults.
    pub fn defaults() -> (res: Self)
        ensures
            workspacecfg_is_default(res),
    {
        let mut v_exclude: Vec<String> = Vec::new();
        v_exclude.push(String::from_str(".git/**"));
        v_exclude.push(String::from_str("node_modules/**"));
        v_exclude.push(String::from_str(".obsidian/**"));
        proof {
            assert(strings_view(v_exclude@) =~= seq![".git/**"@, "node_modules/**"@, ".obsidian/**"@]);
        }
        WorkspaceCfg {
            root: String::from_str("~/KnowledgeBase"),
            exclude: v_exclude,
        }
    }
}

impl StorageCfg {
    /// The built-in defaults.
    pub fn defaults() -> (res: Self)
        ensures
            storagecfg_is_default(res),
    {
        StorageCfg {
            data_dir: String::from_str("${XDG_DATA_HOME:-~/.local/share}/kebab"),
            sqlite: String::from_str("{data_dir}/kebab.sqlite"),
            vector_dir: String::from_str("{data_dir}/lancedb"),
            asset_dir: String::from_str("{data_dir}/assets"),
            artifact_dir: String::from_str("{data_dir}/artifacts"),
            model_dir: String::from_str("{data_dir}/models"),
            runs_dir: String::from_str("{data_dir}/runs"),
            copy_threshold_mb: 100,
        }
    }
}

impl IndexingCfg {
    /// The built-in defaults.
    pub fn defaults() -> (res: Self)
        ensures
            indexingcfg_is_default(res),
    {
        IndexingCfg {
            max_parallel_extractors: 2,
            max_parallel_embeddings: 1,
            watch_filesystem: false,
        }
    }
}

impl ChunkingCfg {
    /// The built-in defaults.
    pub fn defaults() -> (res: Self)
        ensures
            chunkingcfg_is_default(res),
    {
        ChunkingCfg {
            target_tokens: 500,
            overlap_tokens: 80,
            respect_markdown_headings: true,
            chunker_version: String::from_str("md-heading-v1"),
        }
    }
}

impl EmbeddingModelCfg {
    /// The built-in defaults.
    pub fn defaults() -> (res: Self)
        ensures
            embeddingmodelcfg_is_default(res),
    {
        EmbeddingModelCfg {
            provider: String::from_str("fastembed"),
            model: String::from_str("multilingual-e5-large"),
            version: String::from_str("v1"),
            dimensions: 1024,
            batch_size: 64,
        }
    }
}

impl LlmCfg {
    /// The built-in defaults.
    pub fn defaults() -> (res: Self)
        ensures
            llmcfg_is_default(res),
    {
        LlmCfg {
            provider: String::from_str("ollama"),
            model: String::from_str("gemma4:e4b"),
            context_tokens: 32768,
            endpoint: String::from_str("http://127.0.0.1:11434"),
            temperature_bits: 0,
            seed: 0,
            request_timeout_secs: default_llm_request_timeout_secs(),
        }
    }
}

impl NliCfg {
    /// The built-in defaults.
    pub fn defaults() -> (res: Self)
        ensures
            nlicfg_is_default(res),
    {
        NliCfg {
            model: String::from_str("Xenova/mDeBERTa-v3-base-xnli-multilingual-nli-2mil7"),
            provider: String::from_str("onnx"),
        }
    }
}

impl SearchCfg {
    /// The built-in defaults.
    pub fn defaults() -> (res: Self)
        ensures
            searchcfg_is_default(res),
    {
        SearchCfg {
            default_k: 10,
            hybrid_fusion: String::from_str("rrf"),
            rrf_k: 60,
            snippet_chars: 220,
            cache_capacity: default_cache_capacity(),
            stale_threshold_days: 30,
        }
    }
}

impl RagCfg {
    /// The built-in defaults.
    pub fn defaults() -> (res: Self)
        ensures
            ragcfg_is_default(res),
    {
        RagCfg {
            prompt_template_version: String::from_str("rag-v2"),
            score_gate_bits: 0x3E99999A,
            explain_default: false,
            max_context_tokens: 8000,
            multi_hop_max_depth: default_multi_hop_max_depth(),
            multi_hop_max_sub_queries_per_iter: default_multi_hop_max_sub_queries_per_iter(),
            multi_hop_max_pool_chunks: default_multi_hop_max_pool_chunks(),
            nli_threshold_bits: 0,
        }
    }
}

impl OcrCfg {
    /// The built-in defaults.
    pub fn defaults() -> (res: Self)
        ensures
            ocrcfg_is_default(res),
    {
        let mut v_languages: Vec<String> = Vec::new();
        v_languages.push(String::from_str("eng"));
        v_languages.push(String::from_str("kor"));
        proof {
            assert(strings_view(v_languages@) =~= seq!["eng"@, "kor"@]);
        }
        OcrCfg {
            enabled: false,
            engine: String::from_str("ollama-vision"),
            model: String::from_str("gemma4:e4b"),
            endpoint: None,
            languages: v_languages,
            max_pixels: 1600,
            request_timeout_secs: default_ocr_request_timeout_secs(),
        }
    }
}

impl CaptionCfg {
    /// The built-in defaults.
    pub fn defaults() -> (res: Self)
        ensures
            captioncfg_is_default(res),
    {
        CaptionCfg {
            enabled: false,
            max_pixels: 768,
            prompt_template_version: String::from_str("caption-v1"),
        }
    }
}

impl PdfOcrCfg {
    /// The built-in defaults.
    pub fn defaults() -> (res: Self)
        ensures
            pdfocrcfg_is_default(res),
    {
        let mut v_languages: Vec<String> = Vec::new();
        v_languages.push(String::from_str("eng"));
        v_languages.push(String::from_str("kor"));
        proof {
            assert(strings_view(v_languages@) =~= seq!["eng"@, "kor"@]);
        }
        PdfOcrCfg {
            enabled: false,
            always_on: false,
            engine: String::from_str("ollama-vision"),
            model: String::from_str("qwen2.5vl:3b"),
            endpoint: None,
            languages: v_languages,
            max_pixels: 2048,
            request_timeout_secs: default_pdf_ocr_request_timeout_secs(),
            valid_ratio_threshold_bits: 0x3F000000,
            min_char_count: default_pdf_ocr_min_char_count(),
            lang_hint: default_pdf_ocr_lang_hint(),
        }
    }
}

impl LoggingCfg {
    /// The built-in defaults: logging on, under the state directory.
    pub fn defaults() -> (res: Self)
        ensures
            loggingcfg_is_default(res),
    {
        LoggingCfg {
            ingest_log_enabled: true,
            ingest_log_dir: String::from_str("{state_dir}/logs"),
            keep_recent_runs: 100,
            retention_days: 30,
        }
    }
}

impl UiCfg {
    /// The built-in defaults.
    pub fn defaults() -> (res: Self)
        ensures
            uicfg_is_default(res),
    {
        UiCfg {
            theme: String::from_str("dark"),
        }
    }
}

impl Default for IngestCodeCfg {
    fn default() -> (res: Self)
        ensures
            ingestcodecfg_is_default(res),
    {
        let mut v_extra_skip_globs: Vec<String> = Vec::new();
        proof {
            assert(strings_view(v_extra_skip_globs@) =~= Seq::<Seq<char>>::empty());
        }
        IngestCodeCfg {
            skip_generated_header: true,
            max_file_bytes: 262144,
            max_file_lines: 5000,
            extra_skip_globs: v_extra_skip_globs,
            ast_chunk_max_lines: 200,
            fallback_lines_per_chunk: 80,
            fallback_lines_overlap: 20,
        }
    }
}

impl ModelsCfg {
    /// The built-in defaults.
    pub fn defaults() -> (res: Self)
        ensures
            modelscfg_is_default(res),
    {
        ModelsCfg { embedding: EmbeddingModelCfg::defaults(), llm: LlmCfg::defaults(), nli: NliCfg::defaults() }
    }
}

impl ImageCfg {
    /// The built-in defaults.
    pub fn defaults() -> (res: Self)
        ensures
            imagecfg_is_default(res),
    {
        ImageCfg { ocr: OcrCfg::defaults(), caption: CaptionCfg::defaults() }
    }
}

impl PdfCfg {
    /// The built-in defaults.
    pub fn defaults() -> (res: Self)
        ensures
            pdfcfg_is_default(res),
    {
        PdfCfg { ocr: PdfOcrCfg::defaults() }
    }
}

impl Default for IngestCfg {
    fn default() -> (res: Self)
        ensures
            ingestcfg_is_default(res),
    {
        IngestCfg { code: IngestCodeCfg::default() }
    }
}

impl Default for PdfCfg {
    fn default() -> (res: Self)
        ensures
            pdfcfg_is_default(res),
    {
        PdfCfg::defaults()
    }
}

/// `c` holds the built-in defaults of the whole configuration.
pub open spec fn config_is_default(c: Config) -> bool {
    &&& c.schema_version == 1
    &&& workspacecfg_is_default(c.workspace)
    &&& storagecfg_is_default(c.storage)
    &&& indexingcfg_is_default(c.indexing)
    &&& chunkingcfg_is_default(c.chunking)
    &&& modelscfg_is_default(c.models)
    &&& searchcfg_is_default(c.search)
    &&& ragcfg_is_default(c.rag)
    &&& imagecfg_is_default(c.image)
    &&& uicfg_is_default(c.ui)
    &&& ingestcfg_is_default(c.ingest)
    &&& pdfcfg_is_default(c.pdf)
    &&& loggingcfg_is_default(c.logging)
    &&& c.source_dir is None
}

/// The environment keys that override a non-floating-point setting.
#[derive(PartialEq, Eq, Structural, Clone, Copy, Debug)]
pub enum EnvKey {
    WorkspaceRoot,
    StorageDataDir,
    StorageSqlite,
    StorageVectorDir,
    StorageAssetDir,
    StorageArtifactDir,
    StorageModelDir,
    StorageRunsDir,
    StorageCopyThresholdMb,
    IndexingMaxParallelExtractors,
    IndexingMaxParallelEmbeddings,
    IndexingWatchFilesystem,
    ChunkingTargetTokens,
    ChunkingOverlapTokens,
    ChunkingRespectMarkdownHeadings,
    ChunkingChunkerVersion,
    ModelsEmbeddingProvider,
    ModelsEmbeddingModel,
    ModelsEmbeddingVersion,
    ModelsEmbeddingDimensions,
    ModelsEmbeddingBatchSize,
    ModelsLlmProvider,
    ModelsLlmModel,
    ModelsLlmContextTokens,
    ModelsLlmEndpoint,
    ModelsLlmSeed,
    ModelsLlmRequestTimeoutSecs,
    ModelsNliModel,
    ModelsNliProvider,
    SearchDefaultK,
    SearchHybridFusion,
    SearchRrfK,
    SearchSnippetChars,
    SearchStaleThresholdDays,
    RagPromptTemplateVersion,
    RagExplainDefault,
    RagMaxContextTokens,
    RagMultiHopMaxDepth,
    RagMultiHopMaxSubQueriesPerIter,
    RagMultiHopMaxPoolChunks,
    ImageOcrEnabled,
    ImageOcrEngine,
    ImageOcrModel,
    ImageOcrEndpoint,
    ImageOcrLanguages,
    ImageOcrMaxPixels,
    ImageOcrRequestTimeoutSecs,
    ImageCaptionEnabled,
    ImageCaptionMaxPixels,
    ImageCaptionPromptTemplateVersion,
    PdfOcrEnabled,
    PdfOcrAlwaysOn,
    PdfOcrEngine,
    PdfOcrModel,
    PdfOcrEndpoint,
    PdfOcrLanguages,
    PdfOcrMaxPixels,
    PdfOcrRequestTimeoutSecs,
    PdfOcrMinCharCount,
    PdfOcrLangHint,
}

/// The setting an environment variable name overrides, if any.
pub open spec fn env_key_spec(k: Seq<char>) -> Option<EnvKey> {
    if k == "KEBAB_WORKSPACE_ROOT"@ {
        Some(EnvKey::WorkspaceRoot)
    } else if k == "KEBAB_STORAGE_DATA_DIR"@ {
        Some(EnvKey::StorageDataDir)
    } else if k == "KEBAB_STORAGE_SQLITE"@ {
        Some(EnvKey::StorageSqlite)
    } else if k == "KEBAB_STORAGE_VECTOR_DIR"@ {
        Some(EnvKey::StorageVectorDir)
    } else if k == "KEBAB_STORAGE_ASSET_DIR"@ {
        Some(EnvKey::StorageAssetDir)
    } else if k == "KEBAB_STORAGE_ARTIFACT_DIR"@ {
        Some(EnvKey::StorageArtifactDir)
    } else if k == "KEBAB_STORAGE_MODEL_DIR"@ {
        Some(EnvKey::StorageModelDir)
    } else if k == "KEBAB_STORAGE_RUNS_DIR"@ {
        Some(EnvKey::StorageRunsDir)
    } else if k == "KEBAB_STORAGE_COPY_THRESHOLD_MB"@ {
        Some(EnvKey::StorageCopyThresholdMb)
    } else if k == "KEBAB_INDEXING_MAX_PARALLEL_EXTRACTORS"@ {
        Some(EnvKey::IndexingMaxParallelExtractors)
    } else if k == "KEBAB_INDEXING_MAX_PARALLEL_EMBEDDINGS"@ {
        Some(EnvKey::IndexingMaxParallelEmbeddings)
    } else if k == "KEBAB_INDEXING_WATCH_FILESYSTEM"@ {
        Some(EnvKey::IndexingWatchFilesystem)
    } else if k == "KEBAB_CHUNKING_TARGET_TOKENS"@ {
        Some(EnvKey::ChunkingTargetTokens)
    } else if k == "KEBAB_CHUNKING_OVERLAP_TOKENS"@ {
        Some(EnvKey::ChunkingOverlapTokens)
    } else if k == "KEBAB_CHUNKING_RESPECT_MARKDOWN_HEADINGS"@ {
        Some(EnvKey::ChunkingRespectMarkdownHeadings)
    } else if k == "KEBAB_CHUNKING_CHUNKER_VERSION"@ {
        Some(EnvKey::ChunkingChunkerVersion)
    } else if k == "KEBAB_MODELS_EMBEDDING_PROVIDER"@ {
        Some(EnvKey::ModelsEmbeddingProvider)
    } else if k == "KEBAB_MODELS_EMBEDDING_MODEL"@ {
        Some(EnvKey::ModelsEmbeddingModel)
    } else if k == "KEBAB_MODELS_EMBEDDING_VERSION"@ {
        Some(EnvKey::ModelsEmbeddingVersion)
    } else if k == "KEBAB_MODELS_EMBEDDING_DIMENSIONS"@ {
        Some(EnvKey::ModelsEmbeddingDimensions)
    } else if k == "KEBAB_MODELS_EMBEDDING_BATCH_SIZE"@ {
        Some(EnvKey::ModelsEmbeddingBatchSize)
    } else if k == "KEBAB_MODELS_LLM_PROVIDER"@ {
        Some(EnvKey::ModelsLlmProvider)
    } else if k == "KEBAB_MODELS_LLM_MODEL"@ {
        Some(EnvKey::ModelsLlmModel)
    } else if k == "KEBAB_MODELS_LLM_CONTEXT_TOKENS"@ {
        Some(EnvKey::ModelsLlmContextTokens)
    } else if k == "KEBAB_MODELS_LLM_ENDPOINT"@ {
        Some(EnvKey::ModelsLlmEndpoint)
    } else if k == "KEBAB_MODELS_LLM_SEED"@ {
        Some(EnvKey::ModelsLlmSeed)
    } else if k == "KEBAB_MODELS_LLM_REQUEST_TIMEOUT_SECS"@ {
        Some(EnvKey::ModelsLlmRequestTimeoutSecs)
    } else if k == "KEBAB_MODELS_NLI_MODEL"@ {
        Some(EnvKey::ModelsNliModel)
    } else if k == "KEBAB_MODELS_NLI_PROVIDER"@ {
        Some(EnvKey::ModelsNliProvider)
    } else if k == "KEBAB_SEARCH_DEFAULT_K"@ {
        Some(EnvKey::SearchDefaultK)
    } else if k == "KEBAB_SEARCH_HYBRID_FUSION"@ {
        Some(EnvKey::SearchHybridFusion)
    } else if k == "KEBAB_SEARCH_RRF_K"@ {
        Some(EnvKey::SearchRrfK)
    } else if k == "KEBAB_SEARCH_SNIPPET_CHARS"@ {
        Some(EnvKey::SearchSnippetChars)
    } else if k == "KEBAB_SEARCH_STALE_THRESHOLD_DAYS"@ {
        Some(EnvKey::SearchStaleThresholdDays)
    } else if k == "KEBAB_RAG_PROMPT_TEMPLATE_VERSION"@ {
        Some(EnvKey::RagPromptTemplateVersion)
    } else if k == "KEBAB_RAG_EXPLAIN_DEFAULT"@ {
        Some(EnvKey::RagExplainDefault)
    } else if k == "KEBAB_RAG_MAX_CONTEXT_TOKENS"@ {
        Some(EnvKey::RagMaxContextTokens)
    } else if k == "KEBAB_RAG_MULTI_HOP_MAX_DEPTH"@ {
        Some(EnvKey::RagMultiHopMaxDepth)
    } else if k == "KEBAB_RAG_MULTI_HOP_MAX_SUB_QUERIES_PER_ITER"@ {
        Some(EnvKey::RagMultiHopMaxSubQueriesPerIter)
    } else if k == "KEBAB_RAG_MULTI_HOP_MAX_POOL_CHUNKS"@ {
        Some(EnvKey::RagMultiHopMaxPoolChunks)
    } else if k == "KEBAB_IMAGE_OCR_ENABLED"@ {
        Some(EnvKey::ImageOcrEnabled)
    } else if k == "KEBAB_IMAGE_OCR_ENGINE"@ {
        Some(EnvKey::ImageOcrEngine)
    } else if k == "KEBAB_IMAGE_OCR_MODEL"@ {
        Some(EnvKey::ImageOcrModel)
    } else if k == "KEBAB_IMAGE_OCR_ENDPOINT"@ {
        Some(EnvKey::ImageOcrEndpoint)
    } else if k == "KEBAB_IMAGE_OCR_LANGUAGES"@ {
        Some(EnvKey::ImageOcrLanguages)
    } else if k == "KEBAB_IMAGE_OCR_MAX_PIXELS"@ {
        Some(EnvKey::ImageOcrMaxPixels)
    } else if k == "KEBAB_IMAGE_OCR_REQUEST_TIMEOUT_SECS"@ {
        Some(EnvKey::ImageOcrRequestTimeoutSecs)
    } else if k == "KEBAB_IMAGE_CAPTION_ENABLED"@ {
        Some(EnvKey::ImageCaptionEnabled)
    } else if k == "KEBAB_IMAGE_CAPTION_MAX_PIXELS"@ {
        Some(EnvKey::ImageCaptionMaxPixels)
    } else if k == "KEBAB_IMAGE_CAPTION_PROMPT_TEMPLATE_VERSION"@ {
        Some(EnvKey::ImageCaptionPromptTemplateVersion)
    } else if k == "KEBAB_PDF_OCR_ENABLED"@ {
        Some(EnvKey::PdfOcrEnabled)
    } else if k == "KEBAB_PDF_OCR_ALWAYS_ON"@ {
        Some(EnvKey::PdfOcrAlwaysOn)
    } else if k == "KEBAB_PDF_OCR_ENGINE"@ {
        Some(EnvKey::PdfOcrEngine)
    } else if k == "KEBAB_PDF_OCR_MODEL"@ {
        Some(EnvKey::PdfOcrModel)
    } else if k == "KEBAB_PDF_OCR_ENDPOINT"@ {
        Some(EnvKey::PdfOcrEndpoint)
    } else if k == "KEBAB_PDF_OCR_LANGUAGES"@ {
        Some(EnvKey::PdfOcrLanguages)
    } else if k == "KEBAB_PDF_OCR_MAX_PIXELS"@ {
        Some(EnvKey::PdfOcrMaxPixels)
    } else if k == "KEBAB_PDF_OCR_REQUEST_TIMEOUT_SECS"@ {
        Some(EnvKey::PdfOcrRequestTimeoutSecs)
    } else if k == "KEBAB_PDF_OCR_MIN_CHAR_COUNT"@ {
        Some(EnvKey::PdfOcrMinCharCount)
    } else if k == "KEBAB_PDF_OCR_LANG_HINT"@ {
        Some(EnvKey::PdfOcrLangHint)
    } else {
        None
    }
}

/// Whether `a` and `b` hold the same characters.
pub fn str_eq(a: &str, b: &str) -> (res: bool)
    ensures
        res == (a@ == b@),
{
    let x = chars_of(a);
    let y = chars_of(b);
    if x.len() != y.len() {
        return false;
    }
    let mut i: usize = 0;
    while i < x.len()
        invariant
            x@ == a@,
            y@ == b@,
            x@.len() == y@.len(),
            i <= x@.len(),
            forall|j: int| 0 <= j < i ==> x@[j] == y@[j],
        decreases x@.len() - i,
    {
        if x[i] != y[i] {
            return false;
        }
        i = i + 1;
    }
    proof {
        assert(x@ =~= y@);
    }
    true
}

/// The setting an environment variable name overrides, if any.
pub fn env_key(k: &str) -> (res: Option<EnvKey>)
    ensures
        res == env_key_spec(k@),
{
    if str_eq(k, "KEBAB_WORKSPACE_ROOT") {
        Some(EnvKey::WorkspaceRoot)
    } else if str_eq(k, "KEBAB_STORAGE_DATA_DIR") {
        Some(EnvKey::StorageDataDir)
    } else if str_eq(k, "KEBAB_STORAGE_SQLITE") {
        Some(EnvKey::StorageSqlite)
    } else if str_eq(k, "KEBAB_STORAGE_VECTOR_DIR") {
        Some(EnvKey::StorageVectorDir)
    } else if str_eq(k, "KEBAB_STORAGE_ASSET_DIR") {
        Some(EnvKey::StorageAssetDir)
    } else if str_eq(k, "KEBAB_STORAGE_ARTIFACT_DIR") {
        Some(EnvKey::StorageArtifactDir)
    } else if str_eq(k, "KEBAB_STORAGE_MODEL_DIR") {
        Some(EnvKey::StorageModelDir)
    } else if str_eq(k, "KEBAB_STORAGE_RUNS_DIR") {
        Some(EnvKey::StorageRunsDir)
    } else if str_eq(k, "KEBAB_STORAGE_COPY_THRESHOLD_MB") {
        Some(EnvKey::StorageCopyThresholdMb)
    } else if str_eq(k, "KEBAB_INDEXING_MAX_PARALLEL_EXTRACTORS") {
        Some(EnvKey::IndexingMaxParallelExtractors)
    } else if str_eq(k, "KEBAB_INDEXING_MAX_PARALLEL_EMBEDDINGS") {
        Some(EnvKey::IndexingMaxParallelEmbeddings)
    } else if str_eq(k, "KEBAB_INDEXING_WATCH_FILESYSTEM") {
        Some(EnvKey::IndexingWatchFilesystem)
    } else if str_eq(k, "KEBAB_CHUNKING_TARGET_TOKENS") {
        Some(EnvKey::ChunkingTargetTokens)
    } else if str_eq(k, "KEBAB_CHUNKING_OVERLAP_TOKENS") {
        Some(EnvKey::ChunkingOverlapTokens)
    } else if str_eq(k, "KEBAB_CHUNKING_RESPECT_MARKDOWN_HEADINGS") {
        Some(EnvKey::ChunkingRespectMarkdownHeadings)
    } else if str_eq(k, "KEBAB_CHUNKING_CHUNKER_VERSION") {
        Some(EnvKey::ChunkingChunkerVersion)
    } else if str_eq(k, "KEBAB_MODELS_EMBEDDING_PROVIDER") {
        Some(EnvKey::ModelsEmbeddingProvider)
    } else if str_eq(k, "KEBAB_MODELS_EMBEDDING_MODEL") {
        Some(EnvKey::ModelsEmbeddingModel)
    } else if str_eq(k, "KEBAB_MODELS_EMBEDDING_VERSION") {
        Some(EnvKey::ModelsEmbeddingVersion)
    } else if str_eq(k, "KEBAB_MODELS_EMBEDDING_DIMENSIONS") {
        Some(EnvKey::ModelsEmbeddingDimensions)
    } else if str_eq(k, "KEBAB_MODELS_EMBEDDING_BATCH_SIZE") {
        Some(EnvKey::ModelsEmbeddingBatchSize)
    } else if str_eq(k, "KEBAB_MODELS_LLM_PROVIDER") {
        Some(EnvKey::ModelsLlmProvider)
    } else if str_eq(k, "KEBAB_MODELS_LLM_MODEL") {
        Some(EnvKey::ModelsLlmModel)
    } else if str_eq(k, "KEBAB_MODELS_LLM_CONTEXT_TOKENS") {
        Some(EnvKey::ModelsLlmContextTokens)
    } else if str_eq(k, "KEBAB_MODELS_LLM_ENDPOINT") {
        Some(EnvKey::ModelsLlmEndpoint)
    } else if str_eq(k, "KEBAB_MODELS_LLM_SEED") {
        Some(EnvKey::ModelsLlmSeed)
    } else if str_eq(k, "KEBAB_MODELS_LLM_REQUEST_TIMEOUT_SECS") {
        Some(EnvKey::ModelsLlmRequestTimeoutSecs)
    } else if str_eq(k, "KEBAB_MODELS_NLI_MODEL") {
        Some(EnvKey::ModelsNliModel)
    } else if str_eq(k, "KEBAB_MODELS_NLI_PROVIDER") {
        Some(EnvKey::ModelsNliProvider)
    } else if str_eq(k, "KEBAB_SEARCH_DEFAULT_K") {
        Some(EnvKey::SearchDefaultK)
    } else if str_eq(k, "KEBAB_SEARCH_HYBRID_FUSION") {
        Some(EnvKey::SearchHybridFusion)
    } else if str_eq(k, "KEBAB_SEARCH_RRF_K") {
        Some(EnvKey::SearchRrfK)
    } else if str_eq(k, "KEBAB_SEARCH_SNIPPET_CHARS") {
        Some(EnvKey::SearchSnippetChars)
    } else if str_eq(k, "KEBAB_SEARCH_STALE_THRESHOLD_DAYS") {
        Some(EnvKey::SearchStaleThresholdDays)
    } else if str_eq(k, "KEBAB_RAG_PROMPT_TEMPLATE_VERSION") {
        Some(EnvKey::RagPromptTemplateVersion)
    } else if str_eq(k, "KEBAB_RAG_EXPLAIN_DEFAULT") {
        Some(EnvKey::RagExplainDefault)
    } else if str_eq(k, "KEBAB_RAG_MAX_CONTEXT_TOKENS") {
        Some(EnvKey::RagMaxContextTokens)
    } else if str_eq(k, "KEBAB_RAG_MULTI_HOP_MAX_DEPTH") {
        Some(EnvKey::RagMultiHopMaxDepth)
    } else if str_eq(k, "KEBAB_RAG_MULTI_HOP_MAX_SUB_QUERIES_PER_ITER") {
        Some(EnvKey::RagMultiHopMaxSubQueriesPerIter)
    } else if str_eq(k, "KEBAB_RAG_MULTI_HOP_MAX_POOL_CHUNKS") {
        Some(EnvKey::RagMultiHopMaxPoolChunks)
    } else if str_eq(k, "KEBAB_IMAGE_OCR_ENABLED") {
        Some(EnvKey::ImageOcrEnabled)
    } else if str_eq(k, "KEBAB_IMAGE_OCR_ENGINE") {
        Some(EnvKey::ImageOcrEngine)
    } else if str_eq(k, "KEBAB_IMAGE_OCR_MODEL") {
        Some(EnvKey::ImageOcrModel)
    } else if str_eq(k, "KEBAB_IMAGE_OCR_ENDPOINT") {
        Some(EnvKey::ImageOcrEndpoint)
    } else if str_eq(k, "KEBAB_IMAGE_OCR_LANGUAGES") {
        Some(EnvKey::ImageOcrLanguages)
    } else if str_eq(k, "KEBAB_IMAGE_OCR_MAX_PIXELS") {
        Some(EnvKey::ImageOcrMaxPixels)
    } else if str_eq(k, "KEBAB_IMAGE_OCR_REQUEST_TIMEOUT_SECS") {
        Some(EnvKey::ImageOcrRequestTimeoutSecs)
    } else if str_eq(k, "KEBAB_IMAGE_CAPTION_ENABLED") {
        Some(EnvKey::ImageCaptionEnabled)
    } else if str_eq(k, "KEBAB_IMAGE_CAPTION_MAX_PIXELS") {
        Some(EnvKey::ImageCaptionMaxPixels)
    } else if str_eq(k, "KEBAB_IMAGE_CAPTION_PROMPT_TEMPLATE_VERSION") {
        Some(EnvKey::ImageCaptionPromptTemplateVersion)
    } else if str_eq(k, "KEBAB_PDF_OCR_ENABLED") {
        Some(EnvKey::PdfOcrEnabled)
    } else if str_eq(k, "KEBAB_PDF_OCR_ALWAYS_ON") {
        Some(EnvKey::PdfOcrAlwaysOn)
    } else if str_eq(k, "KEBAB_PDF_OCR_ENGINE") {
        Some(EnvKey::PdfOcrEngine)
    } else if str_eq(k, "KEBAB_PDF_OCR_MODEL") {
        Some(EnvKey::PdfOcrModel)
    } else if str_eq(k, "KEBAB_PDF_OCR_ENDPOINT") {
        Some(EnvKey::PdfOcrEndpoint)
    } else if str_eq(k, "KEBAB_PDF_OCR_LANGUAGES") {
        Some(EnvKey::PdfOcrLanguages)
    } else if str_eq(k, "KEBAB_PDF_OCR_MAX_PIXELS") {
        Some(EnvKey::PdfOcrMaxPixels)
    } else if str_eq(k, "KEBAB_PDF_OCR_REQUEST_TIMEOUT_SECS") {
        Some(EnvKey::PdfOcrRequestTimeoutSecs)
    } else if str_eq(k, "KEBAB_PDF_OCR_MIN_CHAR_COUNT") {
        Some(EnvKey::PdfOcrMinCharCount)
    } else if str_eq(k, "KEBAB_PDF_OCR_LANG_HINT") {
        Some(EnvKey::PdfOcrLangHint)
    } else {
        None
    }
}

/// The environment variable that overrides `key`: `KEBAB_`, then the
/// setting's section and key in upper case, joined by `_`.
pub open spec fn env_var_name(key: EnvKey) -> Seq<char> {
    match key {
        EnvKey::WorkspaceRoot => "KEBAB_WORKSPACE_ROOT"@,
        EnvKey::StorageDataDir => "KEBAB_STORAGE_DATA_DIR"@,
        EnvKey::StorageSqlite => "KEBAB_STORAGE_SQLITE"@,
        EnvKey::StorageVectorDir => "KEBAB_STORAGE_VECTOR_DIR"@,
        EnvKey::StorageAssetDir => "KEBAB_STORAGE_ASSET_DIR"@,
        EnvKey::StorageArtifactDir => "KEBAB_STORAGE_ARTIFACT_DIR"@,
        EnvKey::StorageModelDir => "KEBAB_STORAGE_MODEL_DIR"@,
        EnvKey::StorageRunsDir => "KEBAB_STORAGE_RUNS_DIR"@,
        EnvKey::StorageCopyThresholdMb => "KEBAB_STORAGE_COPY_THRESHOLD_MB"@,
        EnvKey::IndexingMaxParallelExtractors => "KEBAB_INDEXING_MAX_PARALLEL_EXTRACTORS"@,
        EnvKey::IndexingMaxParallelEmbeddings => "KEBAB_INDEXING_MAX_PARALLEL_EMBEDDINGS"@,
        EnvKey::IndexingWatchFilesystem => "KEBAB_INDEXING_WATCH_FILESYSTEM"@,
        EnvKey::ChunkingTargetTokens => "KEBAB_CHUNKING_TARGET_TOKENS"@,
        EnvKey::ChunkingOverlapTokens => "KEBAB_CHUNKING_OVERLAP_TOKENS"@,
        EnvKey::ChunkingRespectMarkdownHeadings => "KEBAB_CHUNKING_RESPECT_MARKDOWN_HEADINGS"@,
        EnvKey::ChunkingChunkerVersion => "KEBAB_CHUNKING_CHUNKER_VERSION"@,
        EnvKey::ModelsEmbeddingProvider => "KEBAB_MODELS_EMBEDDING_PROVIDER"@,
        EnvKey::ModelsEmbeddingModel => "KEBAB_MODELS_EMBEDDING_MODEL"@,
        EnvKey::ModelsEmbeddingVersion => "KEBAB_MODELS_EMBEDDING_VERSION"@,
        EnvKey::ModelsEmbeddingDimensions => "KEBAB_MODELS_EMBEDDING_DIMENSIONS"@,
        EnvKey::ModelsEmbeddingBatchSize => "KEBAB_MODELS_EMBEDDING_BATCH_SIZE"@,
        EnvKey::ModelsLlmProvider => "KEBAB_MODELS_LLM_PROVIDER"@,
        EnvKey::ModelsLlmModel => "KEBAB_MODELS_LLM_MODEL"@,
        EnvKey::ModelsLlmContextTokens => "KEBAB_MODELS_LLM_CONTEXT_TOKENS"@,
        EnvKey::ModelsLlmEndpoint => "KEBAB_MODELS_LLM_ENDPOINT"@,
        EnvKey::ModelsLlmSeed => "KEBAB_MODELS_LLM_SEED"@,
        EnvKey::ModelsLlmRequestTimeoutSecs => "KEBAB_MODELS_LLM_REQUEST_TIMEOUT_SECS"@,
        EnvKey::ModelsNliModel => "KEBAB_MODELS_NLI_MODEL"@,
        EnvKey::ModelsNliProvider => "KEBAB_MODELS_NLI_PROVIDER"@,
        EnvKey::SearchDefaultK => "KEBAB_SEARCH_DEFAULT_K"@,
        EnvKey::SearchHybridFusion => "KEBAB_SEARCH_HYBRID_FUSION"@,
        EnvKey::SearchRrfK => "KEBAB_SEARCH_RRF_K"@,
        EnvKey::SearchSnippetChars => "KEBAB_SEARCH_SNIPPET_CHARS"@,
        EnvKey::SearchStaleThresholdDays => "KEBAB_SEARCH_STALE_THRESHOLD_DAYS"@,
        EnvKey::RagPromptTemplateVersion => "KEBAB_RAG_PROMPT_TEMPLATE_VERSION"@,
        EnvKey::RagExplainDefault => "KEBAB_RAG_EXPLAIN_DEFAULT"@,
        EnvKey::RagMaxContextTokens => "KEBAB_RAG_MAX_CONTEXT_TOKENS"@,
        EnvKey::RagMultiHopMaxDepth => "KEBAB_RAG_MULTI_HOP_MAX_DEPTH"@,
        EnvKey::RagMultiHopMaxSubQueriesPerIter => "KEBAB_RAG_MULTI_HOP_MAX_SUB_QUERIES_PER_ITER"@,
        EnvKey::RagMultiHopMaxPoolChunks => "KEBAB_RAG_MULTI_HOP_MAX_POOL_CHUNKS"@,
        EnvKey::ImageOcrEnabled => "KEBAB_IMAGE_OCR_ENABLED"@,
        EnvKey::ImageOcrEngine => "KEBAB_IMAGE_OCR_ENGINE"@,
        EnvKey::ImageOcrModel => "KEBAB_IMAGE_OCR_MODEL"@,
        EnvKey::ImageOcrEndpoint => "KEBAB_IMAGE_OCR_ENDPOINT"@,
        EnvKey::ImageOcrLanguages => "KEBAB_IMAGE_OCR_LANGUAGES"@,
        EnvKey::ImageOcrMaxPixels => "KEBAB_IMAGE_OCR_MAX_PIXELS"@,
        EnvKey::ImageOcrRequestTimeoutSecs => "KEBAB_IMAGE_OCR_REQUEST_TIMEOUT_SECS"@,
        EnvKey::ImageCaptionEnabled => "KEBAB_IMAGE_CAPTION_ENABLED"@,
        EnvKey::ImageCaptionMaxPixels => "KEBAB_IMAGE_CAPTION_MAX_PIXELS"@,
        EnvKey::ImageCaptionPromptTemplateVersion => "KEBAB_IMAGE_CAPTION_PROMPT_TEMPLATE_VERSION"@,
        EnvKey::PdfOcrEnabled => "KEBAB_PDF_OCR_ENABLED"@,
        EnvKey::PdfOcrAlwaysOn => "KEBAB_PDF_OCR_ALWAYS_ON"@,
        EnvKey::PdfOcrEngine => "KEBAB_PDF_OCR_ENGINE"@,
        EnvKey::PdfOcrModel => "KEBAB_PDF_OCR_MODEL"@,
        EnvKey::PdfOcrEndpoint => "KEBAB_PDF_OCR_ENDPOINT"@,
        EnvKey::PdfOcrLanguages => "KEBAB_PDF_OCR_LANGUAGES"@,
        EnvKey::PdfOcrMaxPixels => "KEBAB_PDF_OCR_MAX_PIXELS"@,
        EnvKey::PdfOcrRequestTimeoutSecs => "KEBAB_PDF_OCR_REQUEST_TIMEOUT_SECS"@,
        EnvKey::PdfOcrMinCharCount => "KEBAB_PDF_OCR_MIN_CHAR_COUNT"@,
        EnvKey::PdfOcrLangHint => "KEBAB_PDF_OCR_LANG_HINT"@,
    }
}

/// The lengths of the environment variable names, and a character that
/// tells apart each two names of the same length.
proof fn lemma_env_names_differ()
    ensures
        "KEBAB_WORKSPACE_ROOT"@.len() == 20,
        "KEBAB_STORAGE_DATA_DIR"@.len() == 22,
        "KEBAB_STORAGE_SQLITE"@.len() == 20,
        "KEBAB_STORAGE_VECTOR_DIR"@.len() == 24,
        "KEBAB_STORAGE_ASSET_DIR"@.len() == 23,
        "KEBAB_STORAGE_ARTIFACT_DIR"@.len() == 26,
        "KEBAB_STORAGE_MODEL_DIR"@.len() == 23,
        "KEBAB_STORAGE_RUNS_DIR"@.len() == 22,
        "KEBAB_STORAGE_COPY_THRESHOLD_MB"@.len() == 31,
        "KEBAB_INDEXING_MAX_PARALLEL_EXTRACTORS"@.len() == 38,
        "KEBAB_INDEXING_MAX_PARALLEL_EMBEDDINGS"@.len() == 38,
        "KEBAB_INDEXING_WATCH_FILESYSTEM"@.len() == 31,
        "KEBAB_CHUNKING_TARGET_TOKENS"@.len() == 28,
        "KEBAB_CHUNKING_OVERLAP_TOKENS"@.len() == 29,
        "KEBAB_CHUNKING_RESPECT_MARKDOWN_HEADINGS"@.len() == 40,
        "KEBAB_CHUNKING_CHUNKER_VERSION"@.len() == 30,
        "KEBAB_MODELS_EMBEDDING_PROVIDER"@.len() == 31,
        "KEBAB_MODELS_EMBEDDING_MODEL"@.len() == 28,
        "KEBAB_MODELS_EMBEDDING_VERSION"@.len() == 30,
        "KEBAB_MODELS_EMBEDDING_DIMENSIONS"@.len() == 33,
        "KEBAB_MODELS_EMBEDDING_BATCH_SIZE"@.len() == 33,
        "KEBAB_MODELS_LLM_PROVIDER"@.len() == 25,
        "KEBAB_MODELS_LLM_MODEL"@.len() == 22,
        "KEBAB_MODELS_LLM_CONTEXT_TOKENS"@.len() == 31,
        "KEBAB_MODELS_LLM_ENDPOINT"@.len() == 25,
        "KEBAB_MODELS_LLM_SEED"@.len() == 21,
        "KEBAB_MODELS_LLM_REQUEST_TIMEOUT_SECS"@.len() == 37,
        "KEBAB_MODELS_NLI_MODEL"@.len() == 22,
        "KEBAB_MODELS_NLI_PROVIDER"@.len() == 25,
        "KEBAB_SEARCH_DEFAULT_K"@.len() == 22,
        "KEBAB_SEARCH_HYBRID_FUSION"@.len() == 26,
        "KEBAB_SEARCH_RRF_K"@.len() == 18,
        "KEBAB_SEARCH_SNIPPET_CHARS"@.len() == 26,
        "KEBAB_SEARCH_STALE_THRESHOLD_DAYS"@.len() == 33,
        "KEBAB_RAG_PROMPT_TEMPLATE_VERSION"@.len() == 33,
        "KEBAB_RAG_EXPLAIN_DEFAULT"@.len() == 25,
        "KEBAB_RAG_MAX_CONTEXT_TOKENS"@.len() == 28,
        "KEBAB_RAG_MULTI_HOP_MAX_DEPTH"@.len() == 29,
        "KEBAB_RAG_MULTI_HOP_MAX_SUB_QUERIES_PER_ITER"@.len() == 44,
        "KEBAB_RAG_MULTI_HOP_MAX_POOL_CHUNKS"@.len() == 35,
        "KEBAB_IMAGE_OCR_ENABLED"@.len() == 23,
        "KEBAB_IMAGE_OCR_ENGINE"@.len() == 22,
        "KEBAB_IMAGE_OCR_MODEL"@.len() == 21,
        "KEBAB_IMAGE_OCR_ENDPOINT"@.len() == 24,
        "KEBAB_IMAGE_OCR_LANGUAGES"@.len() == 25,
        "KEBAB_IMAGE_OCR_MAX_PIXELS"@.len() == 26,
        "KEBAB_IMAGE_OCR_REQUEST_TIMEOUT_SECS"@.len() == 36,
        "KEBAB_IMAGE_CAPTION_ENABLED"@.len() == 27,
        "KEBAB_IMAGE_CAPTION_MAX_PIXELS"@.len() == 30,
        "KEBAB_IMAGE_CAPTION_PROMPT_TEMPLATE_VERSION"@.len() == 43,
        "KEBAB_PDF_OCR_ENABLED"@.len() == 21,
        "KEBAB_PDF_OCR_ALWAYS_ON"@.len() == 23,
        "KEBAB_PDF_OCR_ENGINE"@.len() == 20,
        "KEBAB_PDF_OCR_MODEL"@.len() == 19,
        "KEBAB_PDF_OCR_ENDPOINT"@.len() == 22,
        "KEBAB_PDF_OCR_LANGUAGES"@.len() == 23,
        "KEBAB_PDF_OCR_MAX_PIXELS"@.len() == 24,
        "KEBAB_PDF_OCR_REQUEST_TIMEOUT_SECS"@.len() == 34,
        "KEBAB_PDF_OCR_MIN_CHAR_COUNT"@.len() == 28,
        "KEBAB_PDF_OCR_LANG_HINT"@.len() == 23,
        "KEBAB_STORAGE_SQLITE"@[6] != "KEBAB_WORKSPACE_ROOT"@[6],
        "KEBAB_STORAGE_MODEL_DIR"@[14] != "KEBAB_STORAGE_ASSET_DIR"@[14],
        "KEBAB_STORAGE_RUNS_DIR"@[14] != "KEBAB_STORAGE_DATA_DIR"@[14],
        "KEBAB_INDEXING_MAX_PARALLEL_EMBEDDINGS"@[29] != "KEBAB_INDEXING_MAX_PARALLEL_EXTRACTORS"@[29],
        "KEBAB_INDEXING_WATCH_FILESYSTEM"@[6] != "KEBAB_STORAGE_COPY_THRESHOLD_MB"@[6],
        "KEBAB_MODELS_EMBEDDING_PROVIDER"@[6] != "KEBAB_STORAGE_COPY_THRESHOLD_MB"@[6],
        "KEBAB_MODELS_EMBEDDING_PROVIDER"@[6] != "KEBAB_INDEXING_WATCH_FILESYSTEM"@[6],
        "KEBAB_MODELS_EMBEDDING_MODEL"@[6] != "KEBAB_CHUNKING_TARGET_TOKENS"@[6],
        "KEBAB_MODELS_EMBEDDING_VERSION"@[6] != "KEBAB_CHUNKING_CHUNKER_VERSION"@[6],
        "KEBAB_MODELS_EMBEDDING_BATCH_SIZE"@[23] != "KEBAB_MODELS_EMBEDDING_DIMENSIONS"@[23],
        "KEBAB_MODELS_LLM_MODEL"@[6] != "KEBAB_STORAGE_DATA_DIR"@[6],
        "KEBAB_MODELS_LLM_MODEL"@[6] != "KEBAB_STORAGE_RUNS_DIR"@[6],
        "KEBAB_MODELS_LLM_CONTEXT_TOKENS"@[6] != "KEBAB_STORAGE_COPY_THRESHOLD_MB"@[6],
        "KEBAB_MODELS_LLM_CONTEXT_TOKENS"@[6] != "KEBAB_INDEXING_WATCH_FILESYSTEM"@[6],
        "KEBAB_MODELS_LLM_CONTEXT_TOKENS"@[13] != "KEBAB_MODELS_EMBEDDING_PROVIDER"@[13],
        "KEBAB_MODELS_LLM_ENDPOINT"@[17] != "KEBAB_MODELS_LLM_PROVIDER"@[17],
        "KEBAB_MODELS_NLI_MODEL"@[6] != "KEBAB_STORAGE_DATA_DIR"@[6],
        "KEBAB_MODELS_NLI_MODEL"@[6] != "KEBAB_STORAGE_RUNS_DIR"@[6],
        "KEBAB_MODELS_NLI_MODEL"@[13] != "KEBAB_MODELS_LLM_MODEL"@[13],
        "KEBAB_MODELS_NLI_PROVIDER"@[13] != "KEBAB_MODELS_LLM_PROVIDER"@[13],
        "KEBAB_MODELS_NLI_PROVIDER"@[13] != "KEBAB_MODELS_LLM_ENDPOINT"@[13],
        "KEBAB_SEARCH_DEFAULT_K"@[7] != "KEBAB_STORAGE_DATA_DIR"@[7],
        "KEBAB_SEARCH_DEFAULT_K"@[7] != "KEBAB_STORAGE_RUNS_DIR"@[7],
        "KEBAB_SEARCH_DEFAULT_K"@[6] != "KEBAB_MODELS_LLM_MODEL"@[6],
        "KEBAB_SEARCH_DEFAULT_K"@[6] != "KEBAB_MODELS_NLI_MODEL"@[6],
        "KEBAB_SEARCH_HYBRID_FUSION"@[7] != "KEBAB_STORAGE_ARTIFACT_DIR"@[7],
        "KEBAB_SEARCH_SNIPPET_CHARS"@[7] != "KEBAB_STORAGE_ARTIFACT_DIR"@[7],
        "KEBAB_SEARCH_SNIPPET_CHARS"@[13] != "KEBAB_SEARCH_HYBRID_FUSION"@[13],
        "KEBAB_SEARCH_STALE_THRESHOLD_DAYS"@[6] != "KEBAB_MODELS_EMBEDDING_DIMENSIONS"@[6],
        "KEBAB_SEARCH_STALE_THRESHOLD_DAYS"@[6] != "KEBAB_MODELS_EMBEDDING_BATCH_SIZE"@[6],
        "KEBAB_RAG_PROMPT_TEMPLATE_VERSION"@[6] != "KEBAB_MODELS_EMBEDDING_DIMENSIONS"@[6],
        "KEBAB_RAG_PROMPT_TEMPLATE_VERSION"@[6] != "KEBAB_MODELS_EMBEDDING_BATCH_SIZE"@[6],
        "KEBAB_RAG_PROMPT_TEMPLATE_VERSION"@[6] != "KEBAB_SEARCH_STALE_THRESHOLD_DAYS"@[6],
        "KEBAB_RAG_EXPLAIN_DEFAULT"@[6] != "KEBAB_MODELS_LLM_PROVIDER"@[6],
        "KEBAB_RAG_EXPLAIN_DEFAULT"@[6] != "KEBAB_MODELS_LLM_ENDPOINT"@[6],
        "KEBAB_RAG_EXPLAIN_DEFAULT"@[6] != "KEBAB_MODELS_NLI_PROVIDER"@[6],
        "KEBAB_RAG_MAX_CONTEXT_TOKENS"@[6] != "KEBAB_CHUNKING_TARGET_TOKENS"@[6],
        "KEBAB_RAG_MAX_CONTEXT_TOKENS"@[6] != "KEBAB_MODELS_EMBEDDING_MODEL"@[6],
        "KEBAB_RAG_MULTI_HOP_MAX_DEPTH"@[6] != "KEBAB_CHUNKING_OVERLAP_TOKENS"@[6],
        "KEBAB_IMAGE_OCR_ENABLED"@[6] != "KEBAB_STORAGE_ASSET_DIR"@[6],
        "KEBAB_IMAGE_OCR_ENABLED"@[6] != "KEBAB_STORAGE_MODEL_DIR"@[6],
        "KEBAB_IMAGE_OCR_ENGINE"@[6] != "KEBAB_STORAGE_DATA_DIR"@[6],
        "KEBAB_IMAGE_OCR_ENGINE"@[6] != "KEBAB_STORAGE_RUNS_DIR"@[6],
        "KEBAB_IMAGE_OCR_ENGINE"@[6] != "KEBAB_MODELS_LLM_MODEL"@[6],
        "KEBAB_IMAGE_OCR_ENGINE"@[6] != "KEBAB_MODELS_NLI_MODEL"@[6],
        "KEBAB_IMAGE_OCR_ENGINE"@[6] != "KEBAB_SEARCH_DEFAULT_K"@[6],
        "KEBAB_IMAGE_OCR_MODEL"@[6] != "KEBAB_MODELS_LLM_SEED"@[6],
        "KEBAB_IMAGE_OCR_ENDPOINT"@[6] != "KEBAB_STORAGE_VECTOR_DIR"@[6],
        "KEBAB_IMAGE_OCR_LANGUAGES"@[6] != "KEBAB_MODELS_LLM_PROVIDER"@[6],
        "KEBAB_IMAGE_OCR_LANGUAGES"@[6] != "KEBAB_MODELS_LLM_ENDPOINT"@[6],
        "KEBAB_IMAGE_OCR_LANGUAGES"@[6] != "KEBAB_MODELS_NLI_PROVIDER"@[6],
        "KEBAB_IMAGE_OCR_LANGUAGES"@[6] != "KEBAB_RAG_EXPLAIN_DEFAULT"@[6],
        "KEBAB_IMAGE_OCR_MAX_PIXELS"@[6] != "KEBAB_STORAGE_ARTIFACT_DIR"@[6],
        "KEBAB_IMAGE_OCR_MAX_PIXELS"@[6] != "KEBAB_SEARCH_HYBRID_FUSION"@[6],
        "KEBAB_IMAGE_OCR_MAX_PIXELS"@[6] != "KEBAB_SEARCH_SNIPPET_CHARS"@[6],
        "KEBAB_IMAGE_CAPTION_MAX_PIXELS"@[6] != "KEBAB_CHUNKING_CHUNKER_VERSION"@[6],
        "KEBAB_IMAGE_CAPTION_MAX_PIXELS"@[6] != "KEBAB_MODELS_EMBEDDING_VERSION"@[6],
        "KEBAB_PDF_OCR_ENABLED"@[6] != "KEBAB_MODELS_LLM_SEED"@[6],
        "KEBAB_PDF_OCR_ENABLED"@[6] != "KEBAB_IMAGE_OCR_MODEL"@[6],
        "KEBAB_PDF_OCR_ALWAYS_ON"@[6] != "KEBAB_STORAGE_ASSET_DIR"@[6],
        "KEBAB_PDF_OCR_ALWAYS_ON"@[6] != "KEBAB_STORAGE_MODEL_DIR"@[6],
        "KEBAB_PDF_OCR_ALWAYS_ON"@[6] != "KEBAB_IMAGE_OCR_ENABLED"@[6],
        "KEBAB_PDF_OCR_ENGINE"@[6] != "KEBAB_WORKSPACE_ROOT"@[6],
        "KEBAB_PDF_OCR_ENGINE"@[6] != "KEBAB_STORAGE_SQLITE"@[6],
        "KEBAB_PDF_OCR_ENDPOINT"@[6] != "KEBAB_STORAGE_DATA_DIR"@[6],
        "KEBAB_PDF_OCR_ENDPOINT"@[6] != "KEBAB_STORAGE_RUNS_DIR"@[6],
        "KEBAB_PDF_OCR_ENDPOINT"@[6] != "KEBAB_MODELS_LLM_MODEL"@[6],
        "KEBAB_PDF_OCR_ENDPOINT"@[6] != "KEBAB_MODELS_NLI_MODEL"@[6],
        "KEBAB_PDF_OCR_ENDPOINT"@[6] != "KEBAB_SEARCH_DEFAULT_K"@[6],
        "KEBAB_PDF_OCR_ENDPOINT"@[6] != "KEBAB_IMAGE_OCR_ENGINE"@[6],
        "KEBAB_PDF_OCR_LANGUAGES"@[6] != "KEBAB_STORAGE_ASSET_DIR"@[6],
        "KEBAB_PDF_OCR_LANGUAGES"@[6] != "KEBAB_STORAGE_MODEL_DIR"@[6],
        "KEBAB_PDF_OCR_LANGUAGES"@[6] != "KEBAB_IMAGE_OCR_ENABLED"@[6],
        "KEBAB_PDF_OCR_LANGUAGES"@[14] != "KEBAB_PDF_OCR_ALWAYS_ON"@[14],
        "KEBAB_PDF_OCR_MAX_PIXELS"@[6] != "KEBAB_STORAGE_VECTOR_DIR"@[6],
        "KEBAB_PDF_OCR_MAX_PIXELS"@[6] != "KEBAB_IMAGE_OCR_ENDPOINT"@[6],
        "KEBAB_PDF_OCR_MIN_CHAR_COUNT"@[6] != "KEBAB_CHUNKING_TARGET_TOKENS"@[6],
        "KEBAB_PDF_OCR_MIN_CHAR_COUNT"@[6] != "KEBAB_MODELS_EMBEDDING_MODEL"@[6],
        "KEBAB_PDF_OCR_MIN_CHAR_COUNT"@[6] != "KEBAB_RAG_MAX_CONTEXT_TOKENS"@[6],
        "KEBAB_PDF_OCR_LANG_HINT"@[6] != "KEBAB_STORAGE_ASSET_DIR"@[6],
        "KEBAB_PDF_OCR_LANG_HINT"@[6] != "KEBAB_STORAGE_MODEL_DIR"@[6],
        "KEBAB_PDF_OCR_LANG_HINT"@[6] != "KEBAB_IMAGE_OCR_ENABLED"@[6],
        "KEBAB_PDF_OCR_LANG_HINT"@[14] != "KEBAB_PDF_OCR_ALWAYS_ON"@[14],
        "KEBAB_PDF_OCR_LANG_HINT"@[18] != "KEBAB_PDF_OCR_LANGUAGES"@[18],
{
    reveal_strlit("KEBAB_WORKSPACE_ROOT");
    reveal_strlit("KEBAB_STORAGE_DATA_DIR");
    reveal_strlit("KEBAB_STORAGE_SQLITE");
    reveal_strlit("KEBAB_STORAGE_VECTOR_DIR");
    reveal_strlit("KEBAB_STORAGE_ASSET_DIR");
    reveal_strlit("KEBAB_STORAGE_ARTIFACT_DIR");
    reveal_strlit("KEBAB_STORAGE_MODEL_DIR");
    reveal_strlit("KEBAB_STORAGE_RUNS_DIR");
    reveal_strlit("KEBAB_STORAGE_COPY_THRESHOLD_MB");
    reveal_strlit("KEBAB_INDEXING_MAX_PARALLEL_EXTRACTORS");
    reveal_strlit("KEBAB_INDEXING_MAX_PARALLEL_EMBEDDINGS");
    reveal_strlit("KEBAB_INDEXING_WATCH_FILESYSTEM");
    reveal_strlit("KEBAB_CHUNKING_TARGET_TOKENS");
    reveal_strlit("KEBAB_CHUNKING_OVERLAP_TOKENS");
    reveal_strlit("KEBAB_CHUNKING_RESPECT_MARKDOWN_HEADINGS");
    reveal_strlit("KEBAB_CHUNKING_CHUNKER_VERSION");
    reveal_strlit("KEBAB_MODELS_EMBEDDING_PROVIDER");
    reveal_strlit("KEBAB_MODELS_EMBEDDING_MODEL");
    reveal_strlit("KEBAB_MODELS_EMBEDDING_VERSION");
    reveal_strlit("KEBAB_MODELS_EMBEDDING_DIMENSIONS");
    reveal_strlit("KEBAB_MODELS_EMBEDDING_BATCH_SIZE");
    reveal_strlit("KEBAB_MODELS_LLM_PROVIDER");
    reveal_strlit("KEBAB_MODELS_LLM_MODEL");
    reveal_strlit("KEBAB_MODELS_LLM_CONTEXT_TOKENS");
    reveal_strlit("KEBAB_MODELS_LLM_ENDPOINT");
    reveal_strlit("KEBAB_MODELS_LLM_SEED");
    reveal_strlit("KEBAB_MODELS_LLM_REQUEST_TIMEOUT_SECS");
    reveal_strlit("KEBAB_MODELS_NLI_MODEL");
    reveal_strlit("KEBAB_MODELS_NLI_PROVIDER");
    reveal_strlit("KEBAB_SEARCH_DEFAULT_K");
    reveal_strlit("KEBAB_SEARCH_HYBRID_FUSION");
    reveal_strlit("KEBAB_SEARCH_RRF_K");
    reveal_strlit("KEBAB_SEARCH_SNIPPET_CHARS");
    reveal_strlit("KEBAB_SEARCH_STALE_THRESHOLD_DAYS");
    reveal_strlit("KEBAB_RAG_PROMPT_TEMPLATE_VERSION");
    reveal_strlit("KEBAB_RAG_EXPLAIN_DEFAULT");
    reveal_strlit("KEBAB_RAG_MAX_CONTEXT_TOKENS");
    reveal_strlit("KEBAB_RAG_MULTI_HOP_MAX_DEPTH");
    reveal_strlit("KEBAB_RAG_MULTI_HOP_MAX_SUB_QUERIES_PER_ITER");
    reveal_strlit("KEBAB_RAG_MULTI_HOP_MAX_POOL_CHUNKS");
    reveal_strlit("KEBAB_IMAGE_OCR_ENABLED");
    reveal_strlit("KEBAB_IMAGE_OCR_ENGINE");
    reveal_strlit("KEBAB_IMAGE_OCR_MODEL");
    reveal_strlit("KEBAB_IMAGE_OCR_ENDPOINT");
    reveal_strlit("KEBAB_IMAGE_OCR_LANGUAGES");
    reveal_strlit("KEBAB_IMAGE_OCR_MAX_PIXELS");
    reveal_strlit("KEBAB_IMAGE_OCR_REQUEST_TIMEOUT_SECS");
    reveal_strlit("KEBAB_IMAGE_CAPTION_ENABLED");
    reveal_strlit("KEBAB_IMAGE_CAPTION_MAX_PIXELS");
    reveal_strlit("KEBAB_IMAGE_CAPTION_PROMPT_TEMPLATE_VERSION");
    reveal_strlit("KEBAB_PDF_OCR_ENABLED");
    reveal_strlit("KEBAB_PDF_OCR_ALWAYS_ON");
    reveal_strlit("KEBAB_PDF_OCR_ENGINE");
    reveal_strlit("KEBAB_PDF_OCR_MODEL");
    reveal_strlit("KEBAB_PDF_OCR_ENDPOINT");
    reveal_strlit("KEBAB_PDF_OCR_LANGUAGES");
    reveal_strlit("KEBAB_PDF_OCR_MAX_PIXELS");
    reveal_strlit("KEBAB_PDF_OCR_REQUEST_TIMEOUT_SECS");
    reveal_strlit("KEBAB_PDF_OCR_MIN_CHAR_COUNT");
    reveal_strlit("KEBAB_PDF_OCR_LANG_HINT");
}

/// Every setting's own environment variable name selects that setting.
pub proof fn lemma_env_key_names(key: EnvKey)
    ensures
        env_key_spec(env_var_name(key)) == Some(key),
{
    lemma_env_names_differ();
    match key {
        EnvKey::WorkspaceRoot => {},
        EnvKey::StorageDataDir => {},
        EnvKey::StorageSqlite => {},
        EnvKey::StorageVectorDir => {},
        EnvKey::StorageAssetDir => {},
        EnvKey::StorageArtifactDir => {},
        EnvKey::StorageModelDir => {},
        EnvKey::StorageRunsDir => {},
        EnvKey::StorageCopyThresholdMb => {},
        EnvKey::IndexingMaxParallelExtractors => {},
        EnvKey::IndexingMaxParallelEmbeddings => {},
        EnvKey::IndexingWatchFilesystem => {},
        EnvKey::ChunkingTargetTokens => {},
        EnvKey::ChunkingOverlapTokens => {},
        EnvKey::ChunkingRespectMarkdownHeadings => {},
        EnvKey::ChunkingChunkerVersion => {},
        EnvKey::ModelsEmbeddingProvider => {},
        EnvKey::ModelsEmbeddingModel => {},
        EnvKey::ModelsEmbeddingVersion => {},
        EnvKey::ModelsEmbeddingDimensions => {},
        EnvKey::ModelsEmbeddingBatchSize => {},
        EnvKey::ModelsLlmProvider => {},
        EnvKey::ModelsLlmModel => {},
        EnvKey::ModelsLlmContextTokens => {},
        EnvKey::ModelsLlmEndpoint => {},
        EnvKey::ModelsLlmSeed => {},
        EnvKey::ModelsLlmRequestTimeoutSecs => {},
        EnvKey::ModelsNliModel => {},
        EnvKey::ModelsNliProvider => {},
        EnvKey::SearchDefaultK => {},
        EnvKey::SearchHybridFusion => {},
        EnvKey::SearchRrfK => {},
        EnvKey::SearchSnippetChars => {},
        EnvKey::SearchStaleThresholdDays => {},
        EnvKey::RagPromptTemplateVersion => {},
        EnvKey::RagExplainDefault => {},
        EnvKey::RagMaxContextTokens => {},
        EnvKey::RagMultiHopMaxDepth => {},
        EnvKey::RagMultiHopMaxSubQueriesPerIter => {},
        EnvKey::RagMultiHopMaxPoolChunks => {},
        EnvKey::ImageOcrEnabled => {},
        EnvKey::ImageOcrEngine => {},
        EnvKey::ImageOcrModel => {},
        EnvKey::ImageOcrEndpoint => {},
        EnvKey::ImageOcrLanguages => {},
        EnvKey::ImageOcrMaxPixels => {},
        EnvKey::ImageOcrRequestTimeoutSecs => {},
        EnvKey::ImageCaptionEnabled => {},
        EnvKey::ImageCaptionMaxPixels => {},
        EnvKey::ImageCaptionPromptTemplateVersion => {},
        EnvKey::PdfOcrEnabled => {},
        EnvKey::PdfOcrAlwaysOn => {},
        EnvKey::PdfOcrEngine => {},
        EnvKey::PdfOcrModel => {},
        EnvKey::PdfOcrEndpoint => {},
        EnvKey::PdfOcrLanguages => {},
        EnvKey::PdfOcrMaxPixels => {},
        EnvKey::PdfOcrRequestTimeoutSecs => {},
        EnvKey::PdfOcrMinCharCount => {},
        EnvKey::PdfOcrLangHint => {},
    }
}

/// The last entry of an override list that names a setting decides it:
/// when that entry is `env_var_name(key)` with value `v`, `key` gets `v`.
pub proof fn lemma_env_last_entry_wins(env: Seq<(String, String)>, key: EnvKey)
    requires
        env.len() > 0,
        env.last().0@ == env_var_name(key),
    ensures
        last_value(env, key) == Some(env.last().1@),
{
    lemma_env_key_names(key);
}

/// Applying overrides whose last entry is `KEBAB_WORKSPACE_ROOT` sets the
/// workspace root to that entry's value.
pub proof fn lemma_env_sets_workspace_root(c: Config, c2: Config, env: Seq<(String, String)>)
    requires
        config_env_applied(c, c2, env),
        env.len() > 0,
        env.last().0@ == "KEBAB_WORKSPACE_ROOT"@,
    ensures
        c2.workspace.root@ == env.last().1@,
{
    lemma_env_last_entry_wins(env, EnvKey::WorkspaceRoot);
}

impl Config {
    /// The built-in defaults.
    pub fn defaults() -> (res: Self)
        ensures
            config_is_default(res),
    {
        Config {
            schema_version: 1,
            workspace: WorkspaceCfg::defaults(),
            storage: StorageCfg::defaults(),
            indexing: IndexingCfg::defaults(),
            chunking: ChunkingCfg::defaults(),
            models: ModelsCfg::defaults(),
            search: SearchCfg::defaults(),
            rag: RagCfg::defaults(),
            image: ImageCfg::defaults(),
            ui: UiCfg::defaults(),
            ingest: IngestCfg::default(),
            pdf: PdfCfg::defaults(),
            logging: LoggingCfg::defaults(),
            source_dir: None,
        }
    }

    /// The directory of the config file this was loaded from, if any.
    pub fn source_dir(&self) -> (res: Option<String>)
        ensures
            opt_view(res) == opt_view(self.source_dir),
    {
        match &self.source_dir {
            Some(d) => Some(d.clone()),
            None => None,
        }
    }

    /// `self` with its source directory set to `dir`.
    pub fn with_source_dir(self, dir: String) -> (res: Self)
        ensures
            res.source_dir == Some(dir),
            config_sections_same(self, res),
    {
        let mut c = self;
        c.source_dir = Some(dir);
        c
    }

    /// Apply `KEBAB_<SECTION>_<KEY>` overrides from `env`, in order; other
    /// names are ignored. Booleans read `1` / `true` / `yes` (any case) as
    /// true and anything else as false; a number that does not parse keeps
    /// the prior value; an empty endpoint or language hint means none;
    /// a language list is split at commas, trimmed, empty items dropped.
    /// The floating-point settings' keys are left to the caller.
    pub fn apply_env(self, env: &Vec<(String, String)>) -> (res: Self)
        ensures
            config_env_applied(self, res, env@),
    {
        let mut cfg = self;
        let ghost start = self;
        proof {
            assert(env@.take(0) =~= Seq::<(String, String)>::empty());
        }
        let mut i: usize = 0;
        while i < env.len()
            invariant
                i <= env@.len(),
                config_env_applied(start, cfg, env@.take(i as int)),
            decreases env@.len() - i,
        {
            let ghost c1 = cfg;
            let (k, v) = &env[i];
            match env_key(k.as_str()) {
                Some(key) => {
                    cfg.apply_key(key, v);
                },
                None => {},
            }
            proof {
                lemma_config_step(start, c1, cfg, env@, i as int);
            }
            i = i + 1;
        }
        proof {
            assert(env@.take(env@.len() as int) =~= env@);
        }
        cfg
    }
}

// ---------------------------------------------------------------------------
// Parsing of environment values

/// An ASCII decimal digit.
pub open spec fn is_digit(c: char) -> bool {
    '0' <= c && c <= '9'
}

/// The value of a run of decimal digits.
pub open spec fn digits_value(d: Seq<char>) -> nat
    decreases d.len(),
{
    if d.len() == 0 {
        0
    } else {
        digits_value(d.drop_last()) * 10 + ((d.last() as int - '0' as int) as nat)
    }
}

/// The digits of an unsigned integer text: without a leading `+` that is
/// followed by at least one character.
pub open spec fn uint_digits(s: Seq<char>) -> Seq<char> {
    if s.len() > 1 && s[0] == '+' {
        s.drop_first()
    } else {
        s
    }
}

/// Every character is an ASCII digit.
pub open spec fn all_digits(d: Seq<char>) -> bool {
    forall|i: int| 0 <= i < d.len() ==> is_digit(#[trigger] d[i])
}

/// Rust's unsigned integer syntax: an optional `+` (followed by at least
/// one character), then one or more ASCII digits, the value at most `max`.
pub open spec fn parse_uint_spec(s: Seq<char>, max: nat) -> Option<nat> {
    let d = uint_digits(s);
    if d.len() > 0 && all_digits(d) && digits_value(d) <= max {
        Some(digits_value(d))
    } else {
        None
    }
}

proof fn lemma_digits_value_mono(d: Seq<char>, k: int)
    requires
        0 <= k <= d.len(),
        all_digits(d),
    ensures
        digits_value(d.take(k)) <= digits_value(d),
    decreases d.len() - k,
{
    if k < d.len() {
        lemma_digits_value_mono(d, k + 1);
        assert(d.take(k + 1).drop_last() =~= d.take(k));
    } else {
        assert(d.take(k) =~= d);
    }
}

/// Parse `s` as an unsigned integer of at most `max` (see
/// `parse_uint_spec`).
pub fn parse_uint(s: &str, max: u64) -> (res: Option<u64>)
    ensures
        match res {
            Some(n) => parse_uint_spec(s@, max as nat) == Some(n as nat),
            None => parse_uint_spec(s@, max as nat) is None,
        },
{
    let chars = chars_of(s);
    let n = chars.len();
    let start: usize = if n > 1 && chars[0] == '+' {
        1
    } else {
        0
    };
    let ghost d = uint_digits(s@);
    proof {
        assert(d =~= chars@.subrange(start as int, n as int));
    }
    if start == n {
        return None;
    }
    let mut acc: u128 = 0;
    let mut i: usize = start;
    while i < n
        invariant
            chars@ == s@,
            n == chars@.len(),
            start <= i <= n,
            d == uint_digits(s@),
            d == chars@.subrange(start as int, n as int),
            forall|j: int| start <= j < i ==> is_digit(#[trigger] chars@[j]),
            acc as nat == digits_value(d.take(i - start)),
            acc <= max,
        decreases n - i,
    {
        let c = chars[i];
        if !('0' <= c && c <= '9') {
            proof {
                assert(d[i - start] == c);
                assert(!is_digit(d[i - start]));
                assert(!all_digits(d));
            }
            return None;
        }
        let digit = (c as u32 - '0' as u32) as u128;
        proof {
            assert(d.take(i - start + 1).drop_last() =~= d.take(i - start));
            assert(d.take(i - start + 1).last() == c);
        }
        let next = acc * 10 + digit;
        if next > max as u128 {
            proof {
                if all_digits(d) {
                    lemma_digits_value_mono(d, i - start + 1);
                }
            }
            return None;
        }
        acc = next;
        i = i + 1;
    }
    proof {
        assert(d.take(n - start) =~= d);
        assert forall|j: int| 0 <= j < d.len() implies is_digit(#[trigger] d[j]) by {
            assert(d[j] == chars@[start + j]);
        }
    }
    Some(acc as u64)
}

pub fn parse_u64(s: &str) -> (res: Option<u64>)
    ensures
        match res {
            Some(n) => parse_uint_spec(s@, u64::MAX as nat) == Some(n as nat),
            None => parse_uint_spec(s@, u64::MAX as nat) is None,
        },
{
    parse_uint(s, u64::MAX)
}

pub fn parse_u32(s: &str) -> (res: Option<u32>)
    ensures
        match res {
            Some(n) => parse_uint_spec(s@, u32::MAX as nat) == Some(n as nat),
            None => parse_uint_spec(s@, u32::MAX as nat) is None,
        },
{
    match parse_uint(s, u32::MAX as u64) {
        Some(n) => Some(n as u32),
        None => None,
    }
}

pub fn parse_usize(s: &str) -> (res: Option<usize>)
    ensures
        match res {
            Some(n) => parse_uint_spec(s@, usize::MAX as nat) == Some(n as nat),
            None => parse_uint_spec(s@, usize::MAX as nat) is None,
        },
{
    match parse_uint(s, usize::MAX as u64) {
        Some(n) => Some(n as usize),
        None => None,
    }
}

/// ASCII lower-casing of one character.
pub open spec fn ascii_lower(c: char) -> char {
    if 'A' <= c && c <= 'Z' {
        ((c as u32) + 32) as char
    } else {
        c
    }
}

/// A permissive boolean: `1`, `true` or `yes`, ASCII case-insensitive.
pub open spec fn parse_bool_spec(s: Seq<char>) -> bool {
    let l = s.map_values(|c: char| ascii_lower(c));
    l == seq!['1'] || l == seq!['t', 'r', 'u', 'e'] || l == seq!['y', 'e', 's']
}

pub fn lower_char(c: char) -> (r: char)
    ensures
        r == ascii_lower(c),
{
    if 'A' <= c && c <= 'Z' {
        ((c as u8) + 32) as char
    } else {
        c
    }
}

/// Whether the characters of `l` are exactly `lit`.
pub fn chars_are(l: &Vec<char>, lit: &Vec<char>) -> (res: bool)
    ensures
        res == (l@ == lit@),
{
    if l.len() != lit.len() {
        return false;
    }
    let mut i: usize = 0;
    while i < l.len()
        invariant
            l@.len() == lit@.len(),
            i <= l@.len(),
            forall|j: int| 0 <= j < i ==> l@[j] == lit@[j],
        decreases l@.len() - i,
    {
        if l[i] != lit[i] {
            return false;
        }
        i = i + 1;
    }
    proof {
        assert(l@ =~= lit@);
    }
    true
}

/// Parse a permissive boolean (see `parse_bool_spec`).
pub fn parse_bool(s: &str) -> (res: bool)
    ensures
        res == parse_bool_spec(s@),
{
    let chars = chars_of(s);
    let mut l: Vec<char> = Vec::new();
    let mut i: usize = 0;
    while i < chars.len()
        invariant
            chars@ == s@,
            i <= chars@.len(),
            l@ == chars@.take(i as int).map_values(|c: char| ascii_lower(c)),
        decreases chars@.len() - i,
    {
        l.push(lower_char(chars[i]));
        proof {
            assert(chars@.take(i + 1).map_values(|c: char| ascii_lower(c)) =~= chars@.take(i as int).map_values(
                |c: char| ascii_lower(c),
            ).push(ascii_lower(chars@[i as int])));
        }
        i = i + 1;
    }
    proof {
        assert(chars@.take(chars@.len() as int) =~= chars@);
    }
    let mut one: Vec<char> = Vec::new();
    one.push('1');
    let mut t: Vec<char> = Vec::new();
    t.push('t');
    t.push('r');
    t.push('u');
    t.push('e');
    let mut y: Vec<char> = Vec::new();
    y.push('y');
    y.push('e');
    y.push('s');
    proof {
        assert(one@ =~= seq!['1']);
        assert(t@ =~= seq!['t', 'r', 'u', 'e']);
        assert(y@ =~= seq!['y', 'e', 's']);
    }
    chars_are(&l, &one) || chars_are(&l, &t) || chars_are(&l, &y)
}

/// `s` without leading and trailing whitespace.
pub open spec fn trim_spec(s: Seq<char>) -> Seq<char>
    decreases s.len(),
{
    if s.len() > 0 && is_ws(s[0]) {
        trim_spec(s.drop_first())
    } else if s.len() > 0 && is_ws(s.last()) {
        trim_spec(s.drop_last())
    } else {
        s
    }
}

/// A comma-separated list: items trimmed, empty items dropped.
pub open spec fn split_list_spec(v: Seq<char>) -> Seq<Seq<char>> {
    keep_nonempty(split_on(v, ',').map_values(|p: Seq<char>| trim_spec(p)))
}

/// The characters of `v` without leading and trailing whitespace.
pub fn trim_chars(v: &Vec<char>) -> (res: Vec<char>)
    ensures
        res@ == trim_spec(v@),
{
    let mut a: usize = 0;
    let mut b: usize = v.len();
    proof {
        assert(v@.subrange(0, v@.len() as int) =~= v@);
    }
    while a < b && (is_ws_char(v[a]) || is_ws_char(v[b - 1]))
        invariant
            a <= b <= v@.len(),
            trim_spec(v@) == trim_spec(v@.subrange(a as int, b as int)),
        decreases b - a,
    {
        let ghost s = v@.subrange(a as int, b as int);
        if is_ws_char(v[a]) {
            proof {
                assert(s[0] == v@[a as int]);
                assert(s.drop_first() =~= v@.subrange(a + 1, b as int));
            }
            a = a + 1;
        } else {
            proof {
                assert(s[0] == v@[a as int]);
                assert(s.last() == v@[b - 1]);
                assert(s.drop_last() =~= v@.subrange(a as int, b - 1));
            }
            b = b - 1;
        }
    }
    let mut out: Vec<char> = Vec::new();
    let mut k = a;
    while k < b
        invariant
            a <= k <= b <= v@.len(),
            out@ == v@.subrange(a as int, k as int),
        decreases b - k,
    {
        out.push(v[k]);
        proof {
            assert(v@.subrange(a as int, k + 1) =~= v@.subrange(a as int, k as int).push(v@[k as int]));
        }
        k = k + 1;
    }
    proof {
        let ghost s = v@.subrange(a as int, b as int);
        if s.len() > 0 {
            assert(s[0] == v@[a as int]);
            assert(s.last() == v@[b - 1]);
        }
    }
    out
}

/// Split a comma-separated list (see `split_list_spec`).
pub fn split_list(v: &str) -> (res: Vec<String>)
    ensures
        strings_view(res@) == split_list_spec(v@),
{
    let chars = chars_of(v);
    let parts = split_chars(&chars, ',');
    let ghost pv = split_on(v@, ',');
    let ghost tv = pv.map_values(|p: Seq<char>| trim_spec(p));
    let mut out: Vec<String> = Vec::new();
    let mut i: usize = 0;
    proof {
        assert(tv.take(0) =~= Seq::<Seq<char>>::empty());
    }
    while i < parts.len()
        invariant
            crate::text::char_vecs_view(parts@) == pv,
            tv == pv.map_values(|p: Seq<char>| trim_spec(p)),
            i <= parts@.len(),
            strings_view(out@) == keep_nonempty(tv.take(i as int)),
        decreases parts@.len() - i,
    {
        let t = trim_chars(&parts[i]);
        proof {
            assert(pv[i as int] == parts@[i as int]@);
            assert(tv.take(i + 1).drop_last() =~= tv.take(i as int));
            assert(tv.take(i + 1).last() == t@);
        }
        if t.len() > 0 {
            let ghost before = out@;
            out.push(string_from_chars(&t));
            proof {
                assert(strings_view(out@) =~= strings_view(before).push(t@));
            }
        }
        i = i + 1;
    }
    proof {
        assert(tv.take(parts@.len() as int) =~= tv);
    }
    out
}

/// The value of the last entry of `env` named for `key`.
pub open spec fn last_value(env: Seq<(String, String)>, key: EnvKey) -> Option<Seq<char>>
    decreases env.len(),
{
    if env.len() == 0 {
        None
    } else if env_key_spec(env.last().0@) == Some(key) {
        Some(env.last().1@)
    } else {
        last_value(env.drop_last(), key)
    }
}

/// The number of the last entry of `env` named for `key` whose value
/// parses as an unsigned integer of at most `max`.
pub open spec fn last_number(env: Seq<(String, String)>, key: EnvKey, max: nat) -> Option<nat>
    decreases env.len(),
{
    if env.len() == 0 {
        None
    } else if env_key_spec(env.last().0@) == Some(key) && parse_uint_spec(env.last().1@, max) is Some {
        parse_uint_spec(env.last().1@, max)
    } else {
        last_number(env.drop_last(), key, max)
    }
}

pub open spec fn str_override(env: Seq<(String, String)>, key: EnvKey, d: Seq<char>) -> Seq<char> {
    match last_value(env, key) {
        Some(v) => v,
        None => d,
    }
}

pub open spec fn num_override(env: Seq<(String, String)>, key: EnvKey, max: nat, d: nat) -> nat {
    match last_number(env, key, max) {
        Some(n) => n,
        None => d,
    }
}

pub open spec fn bool_override(env: Seq<(String, String)>, key: EnvKey, d: bool) -> bool {
    match last_value(env, key) {
        Some(v) => parse_bool_spec(v),
        None => d,
    }
}

/// An empty text means none.
pub open spec fn empty_as_none(v: Seq<char>) -> Option<Seq<char>> {
    if v.len() == 0 {
        None
    } else {
        Some(v)
    }
}

pub open spec fn opt_override(env: Seq<(String, String)>, key: EnvKey, d: Option<Seq<char>>) -> Option<Seq<char>> {
    match last_value(env, key) {
        Some(v) => empty_as_none(v),
        None => d,
    }
}

pub open spec fn list_override(env: Seq<(String, String)>, key: EnvKey, d: Seq<Seq<char>>) -> Seq<Seq<char>> {
    match last_value(env, key) {
        Some(v) => split_list_spec(v),
        None => d,
    }
}


/// `old` and `new` hold the same settings.
pub open spec fn workspacecfg_same(old: WorkspaceCfg, new: WorkspaceCfg) -> bool {
    &&& new.root@ == old.root@
    &&& new.exclude@ == old.exclude@
}

/// `old` with the overrides of `env` applied gives `new` (see
/// [`config_env_applied`]).
pub open spec fn workspacecfg_env_applied(old: WorkspaceCfg, new: WorkspaceCfg, env: Seq<(String, String)>) -> bool {
    &&& new.root@ == str_override(env, EnvKey::WorkspaceRoot, old.root@)
    &&& new.exclude@ == old.exclude@
}

/// `new` is `old` with the one override `key` = `v` applied.
pub open spec fn workspacecfg_one(old: WorkspaceCfg, new: WorkspaceCfg, key: EnvKey, v: Seq<char>) -> bool {
    &&& new.root@ == (if key == EnvKey::WorkspaceRoot { v } else { old.root@ })
    &&& new.exclude@ == old.exclude@
}

impl WorkspaceCfg {
    /// Apply the override `key` = `v` when `key` is one of these settings.
    pub fn apply_key(&mut self, key: EnvKey, v: &String)
        ensures
            workspacecfg_one(*old(self), *final(self), key, v@),
    {
        match key {
            EnvKey::WorkspaceRoot => {
                self.root = v.clone();
            },
            _ => {},
        }
    }
}

proof fn lemma_workspacecfg_step(start: WorkspaceCfg, c1: WorkspaceCfg, c2: WorkspaceCfg, env: Seq<(String, String)>, i: int)
    requires
        0 <= i < env.len(),
        workspacecfg_env_applied(start, c1, env.take(i)),
        match env_key_spec(env[i].0@) {
            Some(key) => workspacecfg_one(c1, c2, key, env[i].1@),
            None => workspacecfg_same(c1, c2),
        },
    ensures
        workspacecfg_env_applied(start, c2, env.take(i + 1)),
{
    assert(env.take(i + 1).drop_last() =~= env.take(i));
    assert(env.take(i + 1).last() == env[i]);
}

/// `old` and `new` hold the same settings.
pub open spec fn storagecfg_same(old: StorageCfg, new: StorageCfg) -> bool {
    &&& new.data_dir@ == old.data_dir@
    &&& new.sqlite@ == old.sqlite@
    &&& new.vector_dir@ == old.vector_dir@
    &&& new.asset_dir@ == old.asset_dir@
    &&& new.artifact_dir@ == old.artifact_dir@
    &&& new.model_dir@ == old.model_dir@
    &&& new.runs_dir@ == old.runs_dir@
    &&& new.copy_threshold_mb == old.copy_threshold_mb
}

/// `old` with the overrides of `env` applied gives `new` (see
/// [`config_env_applied`]).
pub open spec fn storagecfg_env_applied(old: StorageCfg, new: StorageCfg, env: Seq<(String, String)>) -> bool {
    &&& new.data_dir@ == str_override(env, EnvKey::StorageDataDir, old.data_dir@)
    &&& new.sqlite@ == str_override(env, EnvKey::StorageSqlite, old.sqlite@)
    &&& new.vector_dir@ == str_override(env, EnvKey::StorageVectorDir, old.vector_dir@)
    &&& new.asset_dir@ == str_override(env, EnvKey::StorageAssetDir, old.asset_dir@)
    &&& new.artifact_dir@ == str_override(env, EnvKey::StorageArtifactDir, old.artifact_dir@)
    &&& new.model_dir@ == str_override(env, EnvKey::StorageModelDir, old.model_dir@)
    &&& new.runs_dir@ == str_override(env, EnvKey::StorageRunsDir, old.runs_dir@)
    &&& new.copy_threshold_mb as nat == num_override(env, EnvKey::StorageCopyThresholdMb, u64::MAX as nat, old.copy_threshold_mb as nat)
}

/// `new` is `old` with the one override `key` = `v` applied.
pub open spec fn storagecfg_one(old: StorageCfg, new: StorageCfg, key: EnvKey, v: Seq<char>) -> bool {
    &&& new.data_dir@ == (if key == EnvKey::StorageDataDir { v } else { old.data_dir@ })
    &&& new.sqlite@ == (if key == EnvKey::StorageSqlite { v } else { old.sqlite@ })
    &&& new.vector_dir@ == (if key == EnvKey::StorageVectorDir { v } else { old.vector_dir@ })
    &&& new.asset_dir@ == (if key == EnvKey::StorageAssetDir { v } else { old.asset_dir@ })
    &&& new.artifact_dir@ == (if key == EnvKey::StorageArtifactDir { v } else { old.artifact_dir@ })
    &&& new.model_dir@ == (if key == EnvKey::StorageModelDir { v } else { old.model_dir@ })
    &&& new.runs_dir@ == (if key == EnvKey::StorageRunsDir { v } else { old.runs_dir@ })
    &&& new.copy_threshold_mb as nat == (if key == EnvKey::StorageCopyThresholdMb && parse_uint_spec(v, u64::MAX as nat) is Some { parse_uint_spec(v, u64::MAX as nat)->0 } else { old.copy_threshold_mb as nat })
}

impl StorageCfg {
    /// Apply the override `key` = `v` when `key` is one of these settings.
    pub fn apply_key(&mut self, key: EnvKey, v: &String)
        ensures
            storagecfg_one(*old(self), *final(self), key, v@),
    {
        match key {
            EnvKey::StorageDataDir => {
                self.data_dir = v.clone();
            },
            EnvKey::StorageSqlite => {
                self.sqlite = v.clone();
            },
            EnvKey::StorageVectorDir => {
                self.vector_dir = v.clone();
            },
            EnvKey::StorageAssetDir => {
                self.asset_dir = v.clone();
            },
            EnvKey::StorageArtifactDir => {
                self.artifact_dir = v.clone();
            },
            EnvKey::StorageModelDir => {
                self.model_dir = v.clone();
            },
            EnvKey::StorageRunsDir => {
                self.runs_dir = v.clone();
            },
            EnvKey::StorageCopyThresholdMb => {
                match parse_u64(v.as_str()) {
                    Some(n) => {
                        self.copy_threshold_mb = n;
                    },
                    None => {},
                }
            },
            _ => {},
        }
    }
}

proof fn lemma_storagecfg_step(start: StorageCfg, c1: StorageCfg, c2: StorageCfg, env: Seq<(String, String)>, i: int)
    requires
        0 <= i < env.len(),
        storagecfg_env_applied(start, c1, env.take(i)),
        match env_key_spec(env[i].0@) {
            Some(key) => storagecfg_one(c1, c2, key, env[i].1@),
            None => storagecfg_same(c1, c2),
        },
    ensures
        storagecfg_env_applied(start, c2, env.take(i + 1)),
{
    assert(env.take(i + 1).drop_last() =~= env.take(i));
    assert(env.take(i + 1).last() == env[i]);
}

/// `old` and `new` hold the same settings.
pub open spec fn indexingcfg_same(old: IndexingCfg, new: IndexingCfg) -> bool {
    &&& new.max_parallel_extractors == old.max_parallel_extractors
    &&& new.max_parallel_embeddings == old.max_parallel_embeddings
    &&& new.watch_filesystem == old.watch_filesystem
}

/// `old` with the overrides of `env` applied gives `new` (see
/// [`config_env_applied`]).
pub open spec fn indexingcfg_env_applied(old: IndexingCfg, new: IndexingCfg, env: Seq<(String, String)>) -> bool {
    &&& new.max_parallel_extractors as nat == num_override(env, EnvKey::IndexingMaxParallelExtractors, u32::MAX as nat, old.max_parallel_extractors as nat)
    &&& new.max_parallel_embeddings as nat == num_override(env, EnvKey::IndexingMaxParallelEmbeddings, u32::MAX as nat, old.max_parallel_embeddings as nat)
    &&& new.watch_filesystem == bool_override(env, EnvKey::IndexingWatchFilesystem, old.watch_filesystem)
}

/// `new` is `old` with the one override `key` = `v` applied.
pub open spec fn indexingcfg_one(old: IndexingCfg, new: IndexingCfg, key: EnvKey, v: Seq<char>) -> bool {
    &&& new.max_parallel_extractors as nat == (if key == EnvKey::IndexingMaxParallelExtractors && parse_uint_spec(v, u32::MAX as nat) is Some { parse_uint_spec(v, u32::MAX as nat)->0 } else { old.max_parallel_extractors as nat })
    &&& new.max_parallel_embeddings as nat == (if key == EnvKey::IndexingMaxParallelEmbeddings && parse_uint_spec(v, u32::MAX as nat) is Some { parse_uint_spec(v, u32::MAX as nat)->0 } else { old.max_parallel_embeddings as nat })
    &&& new.watch_filesystem == (if key == EnvKey::IndexingWatchFilesystem { parse_bool_spec(v) } else { old.watch_filesystem })
}

impl IndexingCfg {
    /// Apply the override `key` = `v` when `key` is one of these settings.
    pub fn apply_key(&mut self, key: EnvKey, v: &String)
        ensures
            indexingcfg_one(*old(self), *final(self), key, v@),
    {
        match key {
            EnvKey::IndexingMaxParallelExtractors => {
                match parse_u32(v.as_str()) {
                    Some(n) => {
                        self.max_parallel_extractors = n;
                    },
                    None => {},
                }
            },
            EnvKey::IndexingMaxParallelEmbeddings => {
                match parse_u32(v.as_str()) {
                    Some(n) => {
                        self.max_parallel_embeddings = n;
                    },
                    None => {},
                }
            },
            EnvKey::IndexingWatchFilesystem => {
                self.watch_filesystem = parse_bool(v.as_str());
            },
            _ => {},
        }
    }
}

proof fn lemma_indexingcfg_step(start: IndexingCfg, c1: IndexingCfg, c2: IndexingCfg, env: Seq<(String, String)>, i: int)
    requires
        0 <= i < env.len(),
        indexingcfg_env_applied(start, c1, env.take(i)),
        match env_key_spec(env[i].0@) {
            Some(key) => indexingcfg_one(c1, c2, key, env[i].1@),
            None => indexingcfg_same(c1, c2),
        },
    ensures
        indexingcfg_env_applied(start, c2, env.take(i + 1)),
{
    assert(env.take(i + 1).drop_last() =~= env.take(i));
    assert(env.take(i + 1).last() == env[i]);
}

/// `old` and `new` hold the same settings.
pub open spec fn chunkingcfg_same(old: ChunkingCfg, new: ChunkingCfg) -> bool {
    &&& new.target_tokens == old.target_tokens
    &&& new.overlap_tokens == old.overlap_tokens
    &&& new.respect_markdown_headings == old.respect_markdown_headings
    &&& new.chunker_version@ == old.chunker_version@
}

/// `old` with the overrides of `env` applied gives `new` (see
/// [`config_env_applied`]).
pub open spec fn chunkingcfg_env_applied(old: ChunkingCfg, new: ChunkingCfg, env: Seq<(String, String)>) -> bool {
    &&& new.target_tokens as nat == num_override(env, EnvKey::ChunkingTargetTokens, usize::MAX as nat, old.target_tokens as nat)
    &&& new.overlap_tokens as nat == num_override(env, EnvKey::ChunkingOverlapTokens, usize::MAX as nat, old.overlap_tokens as nat)
    &&& new.respect_markdown_headings == bool_override(env, EnvKey::ChunkingRespectMarkdownHeadings, old.respect_markdown_headings)
    &&& new.chunker_version@ == str_override(env, EnvKey::ChunkingChunkerVersion, old.chunker_version@)
}

/// `new` is `old` with the one override `key` = `v` applied.
pub open spec fn chunkingcfg_one(old: ChunkingCfg, new: ChunkingCfg, key: EnvKey, v: Seq<char>) -> bool {
    &&& new.target_tokens as nat == (if key == EnvKey::ChunkingTargetTokens && parse_uint_spec(v, usize::MAX as nat) is Some { parse_uint_spec(v, usize::MAX as nat)->0 } else { old.target_tokens as nat })
    &&& new.overlap_tokens as nat == (if key == EnvKey::ChunkingOverlapTokens && parse_uint_spec(v, usize::MAX as nat) is Some { parse_uint_spec(v, usize::MAX as nat)->0 } else { old.overlap_tokens as nat })
    &&& new.respect_markdown_headings == (if key == EnvKey::ChunkingRespectMarkdownHeadings { parse_bool_spec(v) } else { old.respect_markdown_headings })
    &&& new.chunker_version@ == (if key == EnvKey::ChunkingChunkerVersion { v } else { old.chunker_version@ })
}

impl ChunkingCfg {
    /// Apply the override `key` = `v` when `key` is one of these settings.
    pub fn apply_key(&mut self, key: EnvKey, v: &String)
        ensures
            chunkingcfg_one(*old(self), *final(self), key, v@),
    {
        match key {
            EnvKey::ChunkingTargetTokens => {
                match parse_usize(v.as_str()) {
                    Some(n) => {
                        self.target_tokens = n;
                    },
                    None => {},
                }
            },
            EnvKey::ChunkingOverlapTokens => {
                match parse_usize(v.as_str()) {
                    Some(n) => {
                        self.overlap_tokens = n;
                    },
                    None => {},
                }
            },
            EnvKey::ChunkingRespectMarkdownHeadings => {
                self.respect_markdown_headings = parse_bool(v.as_str());
            },
            EnvKey::ChunkingChunkerVersion => {
                self.chunker_version = v.clone();
            },
            _ => {},
        }
    }
}

proof fn lemma_chunkingcfg_step(start: ChunkingCfg, c1: ChunkingCfg, c2: ChunkingCfg, env: Seq<(String, String)>, i: int)
    requires
        0 <= i < env.len(),
        chunkingcfg_env_applied(start, c1, env.take(i)),
        match env_key_spec(env[i].0@) {
            Some(key) => chunkingcfg_one(c1, c2, key, env[i].1@),
            None => chunkingcfg_same(c1, c2),
        },
    ensures
        chunkingcfg_env_applied(start, c2, env.take(i + 1)),
{
    assert(env.take(i + 1).drop_last() =~= env.take(i));
    assert(env.take(i + 1).last() == env[i]);
}

/// `old` and `new` hold the same settings.
pub open spec fn embeddingmodelcfg_same(old: EmbeddingModelCfg, new: EmbeddingModelCfg) -> bool {
    &&& new.provider@ == old.provider@
    &&& new.model@ == old.model@
    &&& new.version@ == old.version@
    &&& new.dimensions == old.dimensions
    &&& new.batch_size == old.batch_size
}

/// `old` with the overrides of `env` applied gives `new` (see
/// [`config_env_applied`]).
pub open spec fn embeddingmodelcfg_env_applied(old: EmbeddingModelCfg, new: EmbeddingModelCfg, env: Seq<(String, String)>) -> bool {
    &&& new.provider@ == str_override(env, EnvKey::ModelsEmbeddingProvider, old.provider@)
    &&& new.model@ == str_override(env, EnvKey::ModelsEmbeddingModel, old.model@)
    &&& new.version@ == str_override(env, EnvKey::ModelsEmbeddingVersion, old.version@)
    &&& new.dimensions as nat == num_override(env, EnvKey::ModelsEmbeddingDimensions, usize::MAX as nat, old.dimensions as nat)
    &&& new.batch_size as nat == num_override(env, EnvKey::ModelsEmbeddingBatchSize, usize::MAX as nat, old.batch_size as nat)
}

/// `new` is `old` with the one override `key` = `v` applied.
pub open spec fn embeddingmodelcfg_one(old: EmbeddingModelCfg, new: EmbeddingModelCfg, key: EnvKey, v: Seq<char>) -> bool {
    &&& new.provider@ == (if key == EnvKey::ModelsEmbeddingProvider { v } else { old.provider@ })
    &&& new.model@ == (if key == EnvKey::ModelsEmbeddingModel { v } else { old.model@ })
    &&& new.version@ == (if key == EnvKey::ModelsEmbeddingVersion { v } else { old.version@ })
    &&& new.dimensions as nat == (if key == EnvKey::ModelsEmbeddingDimensions && parse_uint_spec(v, usize::MAX as nat) is Some { parse_uint_spec(v, usize::MAX as nat)->0 } else { old.dimensions as nat })
    &&& new.batch_size as nat == (if key == EnvKey::ModelsEmbeddingBatchSize && parse_uint_spec(v, usize::MAX as nat) is Some { parse_uint_spec(v, usize::MAX as nat)->0 } else { old.batch_size as nat })
}

impl EmbeddingModelCfg {
    /// Apply the override `key` = `v` when `key` is one of these settings.
    pub fn apply_key(&mut self, key: EnvKey, v: &String)
        ensures
            embeddingmodelcfg_one(*old(self), *final(self), key, v@),
    {
        match key {
            EnvKey::ModelsEmbeddingProvider => {
                self.provider = v.clone();
            },
            EnvKey::ModelsEmbeddingModel => {
                self.model = v.clone();
            },
            EnvKey::ModelsEmbeddingVersion => {
                self.version = v.clone();
            },
            EnvKey::ModelsEmbeddingDimensions => {
                match parse_usize(v.as_str()) {
                    Some(n) => {
                        self.dimensions = n;
                    },
                    None => {},
                }
            },
            EnvKey::ModelsEmbeddingBatchSize => {
                match parse_usize(v.as_str()) {
                    Some(n) => {
                        self.batch_size = n;
                    },
                    None => {},
                }
            },
            _ => {},
        }
    }
}

proof fn lemma_embeddingmodelcfg_step(start: EmbeddingModelCfg, c1: EmbeddingModelCfg, c2: EmbeddingModelCfg, env: Seq<(String, String)>, i: int)
    requires
        0 <= i < env.len(),
        embeddingmodelcfg_env_applied(start, c1, env.take(i)),
        match env_key_spec(env[i].0@) {
            Some(key) => embeddingmodelcfg_one(c1, c2, key, env[i].1@),
            None => embeddingmodelcfg_same(c1, c2),
        },
    ensures
        embeddingmodelcfg_env_applied(start, c2, env.take(i + 1)),
{
    assert(env.take(i + 1).drop_last() =~= env.take(i));
    assert(env.take(i + 1).last() == env[i]);
}

/// `old` and `new` hold the same settings.
pub open spec fn llmcfg_same(old: LlmCfg, new: LlmCfg) -> bool {
    &&& new.provider@ == old.provider@
    &&& new.model@ == old.model@
    &&& new.context_tokens == old.context_tokens
    &&& new.endpoint@ == old.endpoint@
    &&& new.temperature_bits == old.temperature_bits
    &&& new.seed == old.seed
    &&& new.request_timeout_secs == old.request_timeout_secs
}

/// `old` with the overrides of `env` applied gives `new` (see
/// [`config_env_applied`]).
pub open spec fn llmcfg_env_applied(old: LlmCfg, new: LlmCfg, env: Seq<(String, String)>) -> bool {
    &&& new.provider@ == str_override(env, EnvKey::ModelsLlmProvider, old.provider@)
    &&& new.model@ == str_override(env, EnvKey::ModelsLlmModel, old.model@)
    &&& new.context_tokens as nat == num_override(env, EnvKey::ModelsLlmContextTokens, usize::MAX as nat, old.context_tokens as nat)
    &&& new.endpoint@ == str_override(env, EnvKey::ModelsLlmEndpoint, old.endpoint@)
    &&& new.temperature_bits == old.temperature_bits
    &&& new.seed as nat == num_override(env, EnvKey::ModelsLlmSeed, u64::MAX as nat, old.seed as nat)
    &&& new.request_timeout_secs as nat == num_override(env, EnvKey::ModelsLlmRequestTimeoutSecs, u64::MAX as nat, old.request_timeout_secs as nat)
}

/// `new` is `old` with the one override `key` = `v` applied.
pub open spec fn llmcfg_one(old: LlmCfg, new: LlmCfg, key: EnvKey, v: Seq<char>) -> bool {
    &&& new.provider@ == (if key == EnvKey::ModelsLlmProvider { v } else { old.provider@ })
    &&& new.model@ == (if key == EnvKey::ModelsLlmModel { v } else { old.model@ })
    &&& new.context_tokens as nat == (if key == EnvKey::ModelsLlmContextTokens && parse_uint_spec(v, usize::MAX as nat) is Some { parse_uint_spec(v, usize::MAX as nat)->0 } else { old.context_tokens as nat })
    &&& new.endpoint@ == (if key == EnvKey::ModelsLlmEndpoint { v } else { old.endpoint@ })
    &&& new.temperature_bits == old.temperature_bits
    &&& new.seed as nat == (if key == EnvKey::ModelsLlmSeed && parse_uint_spec(v, u64::MAX as nat) is Some { parse_uint_spec(v, u64::MAX as nat)->0 } else { old.seed as nat })
    &&& new.request_timeout_secs as nat == (if key == EnvKey::ModelsLlmRequestTimeoutSecs && parse_uint_spec(v, u64::MAX as nat) is Some { parse_uint_spec(v, u64::MAX as nat)->0 } else { old.request_timeout_secs as nat })
}

impl LlmCfg {
    /// Apply the override `key` = `v` when `key` is one of these settings.
    pub fn apply_key(&mut self, key: EnvKey, v: &String)
        ensures
            llmcfg_one(*old(self), *final(self), key, v@),
    {
        match key {
            EnvKey::ModelsLlmProvider => {
                self.provider = v.clone();
            },
            EnvKey::ModelsLlmModel => {
                self.model = v.clone();
            },
            EnvKey::ModelsLlmContextTokens => {
                match parse_usize(v.as_str()) {
                    Some(n) => {
                        self.context_tokens = n;
                    },
                    None => {},
                }
            },
            EnvKey::ModelsLlmEndpoint => {
                self.endpoint = v.clone();
            },
            EnvKey::ModelsLlmSeed => {
                match parse_u64(v.as_str()) {
                    Some(n) => {
                        self.seed = n;
                    },
                    None => {},
                }
            },
            EnvKey::ModelsLlmRequestTimeoutSecs => {
                match parse_u64(v.as_str()) {
                    Some(n) => {
                        self.request_timeout_secs = n;
                    },
                    None => {},
                }
            },
            _ => {},
        }
    }
}

proof fn lemma_llmcfg_step(start: LlmCfg, c1: LlmCfg, c2: LlmCfg, env: Seq<(String, String)>, i: int)
    requires
        0 <= i < env.len(),
        llmcfg_env_applied(start, c1, env.take(i)),
        match env_key_spec(env[i].0@) {
            Some(key) => llmcfg_one(c1, c2, key, env[i].1@),
            None => llmcfg_same(c1, c2),
        },
    ensures
        llmcfg_env_applied(start, c2, env.take(i + 1)),
{
    assert(env.take(i + 1).drop_last() =~= env.take(i));
    assert(env.take(i + 1).last() == env[i]);
}

/// `old` and `new` hold the same settings.
pub open spec fn nlicfg_same(old: NliCfg, new: NliCfg) -> bool {
    &&& new.model@ == old.model@
    &&& new.provider@ == old.provider@
}

/// `old` with the overrides of `env` applied gives `new` (see
/// [`config_env_applied`]).
pub open spec fn nlicfg_env_applied(old: NliCfg, new: NliCfg, env: Seq<(String, String)>) -> bool {
    &&& new.model@ == str_override(env, EnvKey::ModelsNliModel, old.model@)
    &&& new.provider@ == str_override(env, EnvKey::ModelsNliProvider, old.provider@)
}

/// `new` is `old` with the one override `key` = `v` applied.
pub open spec fn nlicfg_one(old: NliCfg, new: NliCfg, key: EnvKey, v: Seq<char>) -> bool {
    &&& new.model@ == (if key == EnvKey::ModelsNliModel { v } else { old.model@ })
    &&& new.provider@ == (if key == EnvKey::ModelsNliProvider { v } else { old.provider@ })
}

impl NliCfg {
    /// Apply the override `key` = `v` when `key` is one of these settings.
    pub fn apply_key(&mut self, key: EnvKey, v: &String)
        ensures
            nlicfg_one(*old(self), *final(self), key, v@),
    {
        match key {
            EnvKey::ModelsNliModel => {
                self.model = v.clone();
            },
            EnvKey::ModelsNliProvider => {
                self.provider = v.clone();
            },
            _ => {},
        }
    }
}

proof fn lemma_nlicfg_step(start: NliCfg, c1: NliCfg, c2: NliCfg, env: Seq<(String, String)>, i: int)
    requires
        0 <= i < env.len(),
        nlicfg_env_applied(start, c1, env.take(i)),
        match env_key_spec(env[i].0@) {
            Some(key) => nlicfg_one(c1, c2, key, env[i].1@),
            None => nlicfg_same(c1, c2),
        },
    ensures
        nlicfg_env_applied(start, c2, env.take(i + 1)),
{
    assert(env.take(i + 1).drop_last() =~= env.take(i));
    assert(env.take(i + 1).last() == env[i]);
}

/// `old` and `new` hold the same settings.
pub open spec fn searchcfg_same(old: SearchCfg, new: SearchCfg) -> bool {
    &&& new.default_k == old.default_k
    &&& new.hybrid_fusion@ == old.hybrid_fusion@
    &&& new.rrf_k == old.rrf_k
    &&& new.snippet_chars == old.snippet_chars
    &&& new.cache_capacity == old.cache_capacity
    &&& new.stale_threshold_days == old.stale_threshold_days
}

/// `old` with the overrides of `env` applied gives `new` (see
/// [`config_env_applied`]).
pub open spec fn searchcfg_env_applied(old: SearchCfg, new: SearchCfg, env: Seq<(String, String)>) -> bool {
    &&& new.default_k as nat == num_override(env, EnvKey::SearchDefaultK, usize::MAX as nat, old.default_k as nat)
    &&& new.hybrid_fusion@ == str_override(env, EnvKey::SearchHybridFusion, old.hybrid_fusion@)
    &&& new.rrf_k as nat == num_override(env, EnvKey::SearchRrfK, u32::MAX as nat, old.rrf_k as nat)
    &&& new.snippet_chars as nat == num_override(env, EnvKey::SearchSnippetChars, usize::MAX as nat, old.snippet_chars as nat)
    &&& new.cache_capacity == old.cache_capacity
    &&& new.stale_threshold_days as nat == num_override(env, EnvKey::SearchStaleThresholdDays, u32::MAX as nat, old.stale_threshold_days as nat)
}

/// `new` is `old` with the one override `key` = `v` applied.
pub open spec fn searchcfg_one(old: SearchCfg, new: SearchCfg, key: EnvKey, v: Seq<char>) -> bool {
    &&& new.default_k as nat == (if key == EnvKey::SearchDefaultK && parse_uint_spec(v, usize::MAX as nat) is Some { parse_uint_spec(v, usize::MAX as nat)->0 } else { old.default_k as nat })
    &&& new.hybrid_fusion@ == (if key == EnvKey::SearchHybridFusion { v } else { old.hybrid_fusion@ })
    &&& new.rrf_k as nat == (if key == EnvKey::SearchRrfK && parse_uint_spec(v, u32::MAX as nat) is Some { parse_uint_spec(v, u32::MAX as nat)->0 } else { old.rrf_k as nat })
    &&& new.snippet_chars as nat == (if key == EnvKey::SearchSnippetChars && parse_uint_spec(v, usize::MAX as nat) is Some { parse_uint_spec(v, usize::MAX as nat)->0 } else { old.snippet_chars as nat })
    &&& new.cache_capacity == old.cache_capacity
    &&& new.stale_threshold_days as nat == (if key == EnvKey::SearchStaleThresholdDays && parse_uint_spec(v, u32::MAX as nat) is Some { parse_uint_spec(v, u32::MAX as nat)->0 } else { old.stale_threshold_days as nat })
}

impl SearchCfg {
    /// Apply the override `key` = `v` when `key` is one of these settings.
    pub fn apply_key(&mut self, key: EnvKey, v: &String)
        ensures
            searchcfg_one(*old(self), *final(self), key, v@),
    {
        match key {
            EnvKey::SearchDefaultK => {
                match parse_usize(v.as_str()) {
                    Some(n) => {
                        self.default_k = n;
                    },
                    None => {},
                }
            },
            EnvKey::SearchHybridFusion => {
                self.hybrid_fusion = v.clone();
            },
            EnvKey::SearchRrfK => {
                match parse_u32(v.as_str()) {
                    Some(n) => {
                        self.rrf_k = n;
                    },
                    None => {},
                }
            },
            EnvKey::SearchSnippetChars => {
                match parse_usize(v.as_str()) {
                    Some(n) => {
                        self.snippet_chars = n;
                    },
                    None => {},
                }
            },
            EnvKey::SearchStaleThresholdDays => {
                match parse_u32(v.as_str()) {
                    Some(n) => {
                        self.stale_threshold_days = n;
                    },
                    None => {},
                }
            },
            _ => {},
        }
    }
}

proof fn lemma_searchcfg_step(start: SearchCfg, c1: SearchCfg, c2: SearchCfg, env: Seq<(String, String)>, i: int)
    requires
        0 <= i < env.len(),
        searchcfg_env_applied(start, c1, env.take(i)),
        match env_key_spec(env[i].0@) {
            Some(key) => searchcfg_one(c1, c2, key, env[i].1@),
            None => searchcfg_same(c1, c2),
        },
    ensures
        searchcfg_env_applied(start, c2, env.take(i + 1)),
{
    assert(env.take(i + 1).drop_last() =~= env.take(i));
    assert(env.take(i + 1).last() == env[i]);
}

/// `old` and `new` hold the same settings.
pub open spec fn ragcfg_same(old: RagCfg, new: RagCfg) -> bool {
    &&& new.prompt_template_version@ == old.prompt_template_version@
    &&& new.score_gate_bits == old.score_gate_bits
    &&& new.explain_default == old.explain_default
    &&& new.max_context_tokens == old.max_context_tokens
    &&& new.multi_hop_max_depth == old.multi_hop_max_depth
    &&& new.multi_hop_max_sub_queries_per_iter == old.multi_hop_max_sub_queries_per_iter
    &&& new.multi_hop_max_pool_chunks == old.multi_hop_max_pool_chunks
    &&& new.nli_threshold_bits == old.nli_threshold_bits
}

/// `old` with the overrides of `env` applied gives `new` (see
/// [`config_env_applied`]).
pub open spec fn ragcfg_env_applied(old: RagCfg, new: RagCfg, env: Seq<(String, String)>) -> bool {
    &&& new.prompt_template_version@ == str_override(env, EnvKey::RagPromptTemplateVersion, old.prompt_template_version@)
    &&& new.score_gate_bits == old.score_gate_bits
    &&& new.explain_default == bool_override(env, EnvKey::RagExplainDefault, old.explain_default)
    &&& new.max_context_tokens as nat == num_override(env, EnvKey::RagMaxContextTokens, usize::MAX as nat, old.max_context_tokens as nat)
    &&& new.multi_hop_max_depth as nat == num_override(env, EnvKey::RagMultiHopMaxDepth, u32::MAX as nat, old.multi_hop_max_depth as nat)
    &&& new.multi_hop_max_sub_queries_per_iter as nat == num_override(env, EnvKey::RagMultiHopMaxSubQueriesPerIter, u32::MAX as nat, old.multi_hop_max_sub_queries_per_iter as nat)
    &&& new.multi_hop_max_pool_chunks as nat == num_override(env, EnvKey::RagMultiHopMaxPoolChunks, u32::MAX as nat, old.multi_hop_max_pool_chunks as nat)
    &&& new.nli_threshold_bits == old.nli_threshold_bits
}

/// `new` is `old` with the one override `key` = `v` applied.
pub open spec fn ragcfg_one(old: RagCfg, new: RagCfg, key: EnvKey, v: Seq<char>) -> bool {
    &&& new.prompt_template_version@ == (if key == EnvKey::RagPromptTemplateVersion { v } else { old.prompt_template_version@ })
    &&& new.score_gate_bits == old.score_gate_bits
    &&& new.explain_default == (if key == EnvKey::RagExplainDefault { parse_bool_spec(v) } else { old.explain_default })
    &&& new.max_context_tokens as nat == (if key == EnvKey::RagMaxContextTokens && parse_uint_spec(v, usize::MAX as nat) is Some { parse_uint_spec(v, usize::MAX as nat)->0 } else { old.max_context_tokens as nat })
    &&& new.multi_hop_max_depth as nat == (if key == EnvKey::RagMultiHopMaxDepth && parse_uint_spec(v, u32::MAX as nat) is Some { parse_uint_spec(v, u32::MAX as nat)->0 } else { old.multi_hop_max_depth as nat })
    &&& new.multi_hop_max_sub_queries_per_iter as nat == (if key == EnvKey::RagMultiHopMaxSubQueriesPerIter && parse_uint_spec(v, u32::MAX as nat) is Some { parse_uint_spec(v, u32::MAX as nat)->0 } else { old.multi_hop_max_sub_queries_per_iter as nat })
    &&& new.multi_hop_max_pool_chunks as nat == (if key == EnvKey::RagMultiHopMaxPoolChunks && parse_uint_spec(v, u32::MAX as nat) is Some { parse_uint_spec(v, u32::MAX as nat)->0 } else { old.multi_hop_max_pool_chunks as nat })
    &&& new.nli_threshold_bits == old.nli_threshold_bits
}

impl RagCfg {
    /// Apply the override `key` = `v` when `key` is one of these settings.
    pub fn apply_key(&mut self, key: EnvKey, v: &String)
        ensures
            ragcfg_one(*old(self), *final(self), key, v@),
    {
        match key {
            EnvKey::RagPromptTemplateVersion => {
                self.prompt_template_version = v.clone();
            },
            EnvKey::RagExplainDefault => {
                self.explain_default = parse_bool(v.as_str());
            },
            EnvKey::RagMaxContextTokens => {
                match parse_usize(v.as_str()) {
                    Some(n) => {
                        self.max_context_tokens = n;
                    },
                    None => {},
                }
            },
            EnvKey::RagMultiHopMaxDepth => {
                match parse_u32(v.as_str()) {
                    Some(n) => {
                        self.multi_hop_max_depth = n;
                    },
                    None => {},
                }
            },
            EnvKey::RagMultiHopMaxSubQueriesPerIter => {
                match parse_u32(v.as_str()) {
                    Some(n) => {
                        self.multi_hop_max_sub_queries_per_iter = n;
                    },
                    None => {},
                }
            },
            EnvKey::RagMultiHopMaxPoolChunks => {
                match parse_u32(v.as_str()) {
                    Some(n) => {
                        self.multi_hop_max_pool_chunks = n;
                    },
                    None => {},
                }
            },
            _ => {},
        }
    }
}

proof fn lemma_ragcfg_step(start: RagCfg, c1: RagCfg, c2: RagCfg, env: Seq<(String, String)>, i: int)
    requires
        0 <= i < env.len(),
        ragcfg_env_applied(start, c1, env.take(i)),
        match env_key_spec(env[i].0@) {
            Some(key) => ragcfg_one(c1, c2, key, env[i].1@),
            None => ragcfg_same(c1, c2),
        },
    ensures
        ragcfg_env_applied(start, c2, env.take(i + 1)),
{
    assert(env.take(i + 1).drop_last() =~= env.take(i));
    assert(env.take(i + 1).last() == env[i]);
}

/// `old` and `new` hold the same settings.
pub open spec fn ocrcfg_same(old: OcrCfg, new: OcrCfg) -> bool {
    &&& new.enabled == old.enabled
    &&& new.engine@ == old.engine@
    &&& new.model@ == old.model@
    &&& new.endpoint == old.endpoint
    &&& new.languages@ == old.languages@
    &&& new.max_pixels == old.max_pixels
    &&& new.request_timeout_secs == old.request_timeout_secs
}

/// `old` with the overrides of `env` applied gives `new` (see
/// [`config_env_applied`]).
pub open spec fn ocrcfg_env_applied(old: OcrCfg, new: OcrCfg, env: Seq<(String, String)>) -> bool {
    &&& new.enabled == bool_override(env, EnvKey::ImageOcrEnabled, old.enabled)
    &&& new.engine@ == str_override(env, EnvKey::ImageOcrEngine, old.engine@)
    &&& new.model@ == str_override(env, EnvKey::ImageOcrModel, old.model@)
    &&& opt_view(new.endpoint) == opt_override(env, EnvKey::ImageOcrEndpoint, opt_view(old.endpoint))
    &&& strings_view(new.languages@) == list_override(env, EnvKey::ImageOcrLanguages, strings_view(old.languages@))
    &&& new.max_pixels as nat == num_override(env, EnvKey::ImageOcrMaxPixels, u32::MAX as nat, old.max_pixels as nat)
    &&& new.request_timeout_secs as nat == num_override(env, EnvKey::ImageOcrRequestTimeoutSecs, u64::MAX as nat, old.request_timeout_secs as nat)
}

/// `new` is `old` with the one override `key` = `v` applied.
pub open spec fn ocrcfg_one(old: OcrCfg, new: OcrCfg, key: EnvKey, v: Seq<char>) -> bool {
    &&& new.enabled == (if key == EnvKey::ImageOcrEnabled { parse_bool_spec(v) } else { old.enabled })
    &&& new.engine@ == (if key == EnvKey::ImageOcrEngine { v } else { old.engine@ })
    &&& new.model@ == (if key == EnvKey::ImageOcrModel { v } else { old.model@ })
    &&& opt_view(new.endpoint) == (if key == EnvKey::ImageOcrEndpoint { empty_as_none(v) } else { opt_view(old.endpoint) })
    &&& strings_view(new.languages@) == (if key == EnvKey::ImageOcrLanguages { split_list_spec(v) } else { strings_view(old.languages@) })
    &&& new.max_pixels as nat == (if key == EnvKey::ImageOcrMaxPixels && parse_uint_spec(v, u32::MAX as nat) is Some { parse_uint_spec(v, u32::MAX as nat)->0 } else { old.max_pixels as nat })
    &&& new.request_timeout_secs as nat == (if key == EnvKey::ImageOcrRequestTimeoutSecs && parse_uint_spec(v, u64::MAX as nat) is Some { parse_uint_spec(v, u64::MAX as nat)->0 } else { old.request_timeout_secs as nat })
}

impl OcrCfg {
    /// Apply the override `key` = `v` when `key` is one of these settings.
    pub fn apply_key(&mut self, key: EnvKey, v: &String)
        ensures
            ocrcfg_one(*old(self), *final(self), key, v@),
    {
        match key {
            EnvKey::ImageOcrEnabled => {
                self.enabled = parse_bool(v.as_str());
            },
            EnvKey::ImageOcrEngine => {
                self.engine = v.clone();
            },
            EnvKey::ImageOcrModel => {
                self.model = v.clone();
            },
            EnvKey::ImageOcrEndpoint => {
                self.endpoint = if v.as_str().is_empty() {
                    None
                } else {
                    Some(v.clone())
                };
            },
            EnvKey::ImageOcrLanguages => {
                self.languages = split_list(v.as_str());
            },
            EnvKey::ImageOcrMaxPixels => {
                match parse_u32(v.as_str()) {
                    Some(n) => {
                        self.max_pixels = n;
                    },
                    None => {},
                }
            },
            EnvKey::ImageOcrRequestTimeoutSecs => {
                match parse_u64(v.as_str()) {
                    Some(n) => {
                        self.request_timeout_secs = n;
                    },
                    None => {},
                }
            },
            _ => {},
        }
    }
}

proof fn lemma_ocrcfg_step(start: OcrCfg, c1: OcrCfg, c2: OcrCfg, env: Seq<(String, String)>, i: int)
    requires
        0 <= i < env.len(),
        ocrcfg_env_applied(start, c1, env.take(i)),
        match env_key_spec(env[i].0@) {
            Some(key) => ocrcfg_one(c1, c2, key, env[i].1@),
            None => ocrcfg_same(c1, c2),
        },
    ensures
        ocrcfg_env_applied(start, c2, env.take(i + 1)),
{
    assert(env.take(i + 1).drop_last() =~= env.take(i));
    assert(env.take(i + 1).last() == env[i]);
}

/// `old` and `new` hold the same settings.
pub open spec fn captioncfg_same(old: CaptionCfg, new: CaptionCfg) -> bool {
    &&& new.enabled == old.enabled
    &&& new.max_pixels == old.max_pixels
    &&& new.prompt_template_version@ == old.prompt_template_version@
}

/// `old` with the overrides of `env` applied gives `new` (see
/// [`config_env_applied`]).
pub open spec fn captioncfg_env_applied(old: CaptionCfg, new: CaptionCfg, env: Seq<(String, String)>) -> bool {
    &&& new.enabled == bool_override(env, EnvKey::ImageCaptionEnabled, old.enabled)
    &&& new.max_pixels as nat == num_override(env, EnvKey::ImageCaptionMaxPixels, u32::MAX as nat, old.max_pixels as nat)
    &&& new.prompt_template_version@ == str_override(env, EnvKey::ImageCaptionPromptTemplateVersion, old.prompt_template_version@)
}

/// `new` is `old` with the one override `key` = `v` applied.
pub open spec fn captioncfg_one(old: CaptionCfg, new: CaptionCfg, key: EnvKey, v: Seq<char>) -> bool {
    &&& new.enabled == (if key == EnvKey::ImageCaptionEnabled { parse_bool_spec(v) } else { old.enabled })
    &&& new.max_pixels as nat == (if key == EnvKey::ImageCaptionMaxPixels && parse_uint_spec(v, u32::MAX as nat) is Some { parse_uint_spec(v, u32::MAX as nat)->0 } else { old.max_pixels as nat })
    &&& new.prompt_template_version@ == (if key == EnvKey::ImageCaptionPromptTemplateVersion { v } else { old.prompt_template_version@ })
}

impl CaptionCfg {
    /// Apply the override `key` = `v` when `key` is one of these settings.
    pub fn apply_key(&mut self, key: EnvKey, v: &String)
        ensures
            captioncfg_one(*old(self), *final(self), key, v@),
    {
        match key {
            EnvKey::ImageCaptionEnabled => {
                self.enabled = parse_bool(v.as_str());
            },
            EnvKey::ImageCaptionMaxPixels => {
                match parse_u32(v.as_str()) {
                    Some(n) => {
                        self.max_pixels = n;
                    },
                    None => {},
                }
            },
            EnvKey::ImageCaptionPromptTemplateVersion => {
                self.prompt_template_version = v.clone();
            },
            _ => {},
        }
    }
}

proof fn lemma_captioncfg_step(start: CaptionCfg, c1: CaptionCfg, c2: CaptionCfg, env: Seq<(String, String)>, i: int)
    requires
        0 <= i < env.len(),
        captioncfg_env_applied(start, c1, env.take(i)),
        match env_key_spec(env[i].0@) {
            Some(key) => captioncfg_one(c1, c2, key, env[i].1@),
            None => captioncfg_same(c1, c2),
        },
    ensures
        captioncfg_env_applied(start, c2, env.take(i + 1)),
{
    assert(env.take(i + 1).drop_last() =~= env.take(i));
    assert(env.take(i + 1).last() == env[i]);
}

/// `old` and `new` hold the same settings.
pub open spec fn pdfocrcfg_same(old: PdfOcrCfg, new: PdfOcrCfg) -> bool {
    &&& new.enabled == old.enabled
    &&& new.always_on == old.always_on
    &&& new.engine@ == old.engine@
    &&& new.model@ == old.model@
    &&& new.endpoint == old.endpoint
    &&& new.languages@ == old.languages@
    &&& new.max_pixels == old.max_pixels
    &&& new.request_timeout_secs == old.request_timeout_secs
    &&& new.valid_ratio_threshold_bits == old.valid_ratio_threshold_bits
    &&& new.min_char_count == old.min_char_count
    &&& new.lang_hint == old.lang_hint
}

/// `old` with the overrides of `env` applied gives `new` (see
/// [`config_env_applied`]).
pub open spec fn pdfocrcfg_env_applied(old: PdfOcrCfg, new: PdfOcrCfg, env: Seq<(String, String)>) -> bool {
    &&& new.enabled == bool_override(env, EnvKey::PdfOcrEnabled, old.enabled)
    &&& new.always_on == bool_override(env, EnvKey::PdfOcrAlwaysOn, old.always_on)
    &&& new.engine@ == str_override(env, EnvKey::PdfOcrEngine, old.engine@)
    &&& new.model@ == str_override(env, EnvKey::PdfOcrModel, old.model@)
    &&& opt_view(new.endpoint) == opt_override(env, EnvKey::PdfOcrEndpoint, opt_view(old.endpoint))
    &&& strings_view(new.languages@) == list_override(env, EnvKey::PdfOcrLanguages, strings_view(old.languages@))
    &&& new.max_pixels as nat == num_override(env, EnvKey::PdfOcrMaxPixels, u32::MAX as nat, old.max_pixels as nat)
    &&& new.request_timeout_secs as nat == num_override(env, EnvKey::PdfOcrRequestTimeoutSecs, u64::MAX as nat, old.request_timeout_secs as nat)
    &&& new.valid_ratio_threshold_bits == old.valid_ratio_threshold_bits
    &&& new.min_char_count as nat == num_override(env, EnvKey::PdfOcrMinCharCount, u32::MAX as nat, old.min_char_count as nat)
    &&& opt_view(new.lang_hint) == opt_override(env, EnvKey::PdfOcrLangHint, opt_view(old.lang_hint))
}

/// `new` is `old` with the one override `key` = `v` applied.
pub open spec fn pdfocrcfg_one(old: PdfOcrCfg, new: PdfOcrCfg, key: EnvKey, v: Seq<char>) -> bool {
    &&& new.enabled == (if key == EnvKey::PdfOcrEnabled { parse_bool_spec(v) } else { old.enabled })
    &&& new.always_on == (if key == EnvKey::PdfOcrAlwaysOn { parse_bool_spec(v) } else { old.always_on })
    &&& new.engine@ == (if key == EnvKey::PdfOcrEngine { v } else { old.engine@ })
    &&& new.model@ == (if key == EnvKey::PdfOcrModel { v } else { old.model@ })
    &&& opt_view(new.endpoint) == (if key == EnvKey::PdfOcrEndpoint { empty_as_none(v) } else { opt_view(old.endpoint) })
    &&& strings_view(new.languages@) == (if key == EnvKey::PdfOcrLanguages { split_list_spec(v) } else { strings_view(old.languages@) })
    &&& new.max_pixels as nat == (if key == EnvKey::PdfOcrMaxPixels && parse_uint_spec(v, u32::MAX as nat) is Some { parse_uint_spec(v, u32::MAX as nat)->0 } else { old.max_pixels as nat })
    &&& new.request_timeout_secs as nat == (if key == EnvKey::PdfOcrRequestTimeoutSecs && parse_uint_spec(v, u64::MAX as nat) is Some { parse_uint_spec(v, u64::MAX as nat)->0 } else { old.request_timeout_secs as nat })
    &&& new.valid_ratio_threshold_bits == old.valid_ratio_threshold_bits
    &&& new.min_char_count as nat == (if key == EnvKey::PdfOcrMinCharCount && parse_uint_spec(v, u32::MAX as nat) is Some { parse_uint_spec(v, u32::MAX as nat)->0 } else { old.min_char_count as nat })
    &&& opt_view(new.lang_hint) == (if key == EnvKey::PdfOcrLangHint { empty_as_none(v) } else { opt_view(old.lang_hint) })
}

impl PdfOcrCfg {
    /// Apply the override `key` = `v` when `key` is one of these settings.
    pub fn apply_key(&mut self, key: EnvKey, v: &String)
        ensures
            pdfocrcfg_one(*old(self), *final(self), key, v@),
    {
        match key {
            EnvKey::PdfOcrEnabled => {
                self.enabled = parse_bool(v.as_str());
            },
            EnvKey::PdfOcrAlwaysOn => {
                self.always_on = parse_bool(v.as_str());
            },
            EnvKey::PdfOcrEngine => {
                self.engine = v.clone();
            },
            EnvKey::PdfOcrModel => {
                self.model = v.clone();
            },
            EnvKey::PdfOcrEndpoint => {
                self.endpoint = if v.as_str().is_empty() {
                    None
                } else {
                    Some(v.clone())
                };
            },
            EnvKey::PdfOcrLanguages => {
                self.languages = split_list(v.as_str());
            },
            EnvKey::PdfOcrMaxPixels => {
                match parse_u32(v.as_str()) {
                    Some(n) => {
                        self.max_pixels = n;
                    },
                    None => {},
                }
            },
            EnvKey::PdfOcrRequestTimeoutSecs => {
                match parse_u64(v.as_str()) {
                    Some(n) => {
                        self.request_timeout_secs = n;
                    },
                    None => {},
                }
            },
            EnvKey::PdfOcrMinCharCount => {
                match parse_u32(v.as_str()) {
                    Some(n) => {
                        self.min_char_count = n;
                    },
                    None => {},
                }
            },
            EnvKey::PdfOcrLangHint => {
                self.lang_hint = if v.as_str().is_empty() {
                    None
                } else {
                    Some(v.clone())
                };
            },
            _ => {},
        }
    }
}

proof fn lemma_pdfocrcfg_step(start: PdfOcrCfg, c1: PdfOcrCfg, c2: PdfOcrCfg, env: Seq<(String, String)>, i: int)
    requires
        0 <= i < env.len(),
        pdfocrcfg_env_applied(start, c1, env.take(i)),
        match env_key_spec(env[i].0@) {
            Some(key) => pdfocrcfg_one(c1, c2, key, env[i].1@),
            None => pdfocrcfg_same(c1, c2),
        },
    ensures
        pdfocrcfg_env_applied(start, c2, env.take(i + 1)),
{
    assert(env.take(i + 1).drop_last() =~= env.take(i));
    assert(env.take(i + 1).last() == env[i]);
}

/// `old` and `new` hold the same settings.
pub open spec fn uicfg_same(old: UiCfg, new: UiCfg) -> bool {
    &&& new.theme@ == old.theme@
}

/// `old` and `new` hold the same settings.
pub open spec fn ingestcodecfg_same(old: IngestCodeCfg, new: IngestCodeCfg) -> bool {
    &&& new.skip_generated_header == old.skip_generated_header
    &&& new.max_file_bytes == old.max_file_bytes
    &&& new.max_file_lines == old.max_file_lines
    &&& new.extra_skip_globs@ == old.extra_skip_globs@
    &&& new.ast_chunk_max_lines == old.ast_chunk_max_lines
    &&& new.fallback_lines_per_chunk == old.fallback_lines_per_chunk
    &&& new.fallback_lines_overlap == old.fallback_lines_overlap
}

/// `old` and `new` hold the same settings.
pub open spec fn modelscfg_same(old: ModelsCfg, new: ModelsCfg) -> bool {
    &&& embeddingmodelcfg_same(old.embedding, new.embedding)
    &&& llmcfg_same(old.llm, new.llm)
    &&& nlicfg_same(old.nli, new.nli)
}

pub open spec fn modelscfg_env_applied(old: ModelsCfg, new: ModelsCfg, env: Seq<(String, String)>) -> bool {
    &&& embeddingmodelcfg_env_applied(old.embedding, new.embedding, env)
    &&& llmcfg_env_applied(old.llm, new.llm, env)
    &&& nlicfg_env_applied(old.nli, new.nli, env)
}

pub open spec fn modelscfg_one(old: ModelsCfg, new: ModelsCfg, key: EnvKey, v: Seq<char>) -> bool {
    &&& embeddingmodelcfg_one(old.embedding, new.embedding, key, v)
    &&& llmcfg_one(old.llm, new.llm, key, v)
    &&& nlicfg_one(old.nli, new.nli, key, v)
}

impl ModelsCfg {
    /// Apply the override `key` = `v` to the sections it belongs to.
    pub fn apply_key(&mut self, key: EnvKey, v: &String)
        ensures
            modelscfg_one(*old(self), *final(self), key, v@),
    {
        self.embedding.apply_key(key, v);
        self.llm.apply_key(key, v);
        self.nli.apply_key(key, v);
    }
}

/// `old` and `new` hold the same settings.
pub open spec fn imagecfg_same(old: ImageCfg, new: ImageCfg) -> bool {
    &&& ocrcfg_same(old.ocr, new.ocr)
    &&& captioncfg_same(old.caption, new.caption)
}

pub open spec fn imagecfg_env_applied(old: ImageCfg, new: ImageCfg, env: Seq<(String, String)>) -> bool {
    &&& ocrcfg_env_applied(old.ocr, new.ocr, env)
    &&& captioncfg_env_applied(old.caption, new.caption, env)
}

pub open spec fn imagecfg_one(old: ImageCfg, new: ImageCfg, key: EnvKey, v: Seq<char>) -> bool {
    &&& ocrcfg_one(old.ocr, new.ocr, key, v)
    &&& captioncfg_one(old.caption, new.caption, key, v)
}

impl ImageCfg {
    /// Apply the override `key` = `v` to the sections it belongs to.
    pub fn apply_key(&mut self, key: EnvKey, v: &String)
        ensures
            imagecfg_one(*old(self), *final(self), key, v@),
    {
        self.ocr.apply_key(key, v);
        self.caption.apply_key(key, v);
    }
}

/// `old` and `new` hold the same settings.
pub open spec fn pdfcfg_same(old: PdfCfg, new: PdfCfg) -> bool {
    &&& pdfocrcfg_same(old.ocr, new.ocr)
}

pub open spec fn pdfcfg_env_applied(old: PdfCfg, new: PdfCfg, env: Seq<(String, String)>) -> bool {
    &&& pdfocrcfg_env_applied(old.ocr, new.ocr, env)
}

pub open spec fn pdfcfg_one(old: PdfCfg, new: PdfCfg, key: EnvKey, v: Seq<char>) -> bool {
    &&& pdfocrcfg_one(old.ocr, new.ocr, key, v)
}

impl PdfCfg {
    /// Apply the override `key` = `v` to the sections it belongs to.
    pub fn apply_key(&mut self, key: EnvKey, v: &String)
        ensures
            pdfcfg_one(*old(self), *final(self), key, v@),
    {
        self.ocr.apply_key(key, v);
    }
}

/// `old` and `new` hold the same settings.
pub open spec fn ingestcfg_same(old: IngestCfg, new: IngestCfg) -> bool {
    &&& ingestcodecfg_same(old.code, new.code)
}

/// `old` with the overrides of `env` applied gives `new`: for each
/// setting with an environment key, the last entry for that key decides
/// (a number keeps its prior value when the entry does not parse; see
/// `num_override`), and every other setting is unchanged.
pub open spec fn config_env_applied(old: Config, new: Config, env: Seq<(String, String)>) -> bool {
    &&& workspacecfg_env_applied(old.workspace, new.workspace, env)
    &&& storagecfg_env_applied(old.storage, new.storage, env)
    &&& indexingcfg_env_applied(old.indexing, new.indexing, env)
    &&& chunkingcfg_env_applied(old.chunking, new.chunking, env)
    &&& modelscfg_env_applied(old.models, new.models, env)
    &&& searchcfg_env_applied(old.search, new.search, env)
    &&& ragcfg_env_applied(old.rag, new.rag, env)
    &&& imagecfg_env_applied(old.image, new.image, env)
    &&& pdfcfg_env_applied(old.pdf, new.pdf, env)
    &&& uicfg_same(old.ui, new.ui)
    &&& ingestcfg_same(old.ingest, new.ingest)
    &&& loggingcfg_same(old.logging, new.logging)
    &&& new.schema_version == old.schema_version
    &&& new.source_dir == old.source_dir
}

pub open spec fn config_one(old: Config, new: Config, key: EnvKey, v: Seq<char>) -> bool {
    &&& workspacecfg_one(old.workspace, new.workspace, key, v)
    &&& storagecfg_one(old.storage, new.storage, key, v)
    &&& indexingcfg_one(old.indexing, new.indexing, key, v)
    &&& chunkingcfg_one(old.chunking, new.chunking, key, v)
    &&& modelscfg_one(old.models, new.models, key, v)
    &&& searchcfg_one(old.search, new.search, key, v)
    &&& ragcfg_one(old.rag, new.rag, key, v)
    &&& imagecfg_one(old.image, new.image, key, v)
    &&& pdfcfg_one(old.pdf, new.pdf, key, v)
    &&& uicfg_same(old.ui, new.ui)
    &&& ingestcfg_same(old.ingest, new.ingest)
    &&& loggingcfg_same(old.logging, new.logging)
    &&& new.schema_version == old.schema_version
    &&& new.source_dir == old.source_dir
}

pub open spec fn config_same(old: Config, new: Config) -> bool {
    &&& config_sections_same(old, new)
    &&& new.source_dir == old.source_dir
}

/// `old` and `new` hold the same settings, apart from the source directory.
pub open spec fn config_sections_same(old: Config, new: Config) -> bool {
    &&& workspacecfg_same(old.workspace, new.workspace)
    &&& storagecfg_same(old.storage, new.storage)
    &&& indexingcfg_same(old.indexing, new.indexing)
    &&& chunkingcfg_same(old.chunking, new.chunking)
    &&& modelscfg_same(old.models, new.models)
    &&& searchcfg_same(old.search, new.search)
    &&& ragcfg_same(old.rag, new.rag)
    &&& imagecfg_same(old.image, new.image)
    &&& pdfcfg_same(old.pdf, new.pdf)
    &&& uicfg_same(old.ui, new.ui)
    &&& ingestcfg_same(old.ingest, new.ingest)
    &&& loggingcfg_same(old.logging, new.logging)
    &&& new.schema_version == old.schema_version
}

proof fn lemma_last_value_concat(e1: Seq<(String, String)>, e2: Seq<(String, String)>, key: EnvKey)
    ensures
        last_value(e1 + e2, key) == match last_value(e2, key) {
            Some(v) => Some(v),
            None => last_value(e1, key),
        },
    decreases e2.len(),
{
    if e2.len() > 0 {
        assert((e1 + e2).drop_last() =~= e1 + e2.drop_last());
        assert((e1 + e2).last() == e2.last());
        lemma_last_value_concat(e1, e2.drop_last(), key);
    } else {
        assert(e1 + e2 =~= e1);
    }
}

proof fn lemma_last_number_concat(e1: Seq<(String, String)>, e2: Seq<(String, String)>, key: EnvKey, max: nat)
    ensures
        last_number(e1 + e2, key, max) == match last_number(e2, key, max) {
            Some(n) => Some(n),
            None => last_number(e1, key, max),
        },
        last_number(e2, key, max) is Some ==> last_value(e2, key) is Some,
    decreases e2.len(),
{
    if e2.len() > 0 {
        assert((e1 + e2).drop_last() =~= e1 + e2.drop_last());
        assert((e1 + e2).last() == e2.last());
        lemma_last_number_concat(e1, e2.drop_last(), key, max);
    } else {
        assert(e1 + e2 =~= e1);
    }
}

/// No setting is named in both `e1` and `e2`.
pub open spec fn env_disjoint(e1: Seq<(String, String)>, e2: Seq<(String, String)>) -> bool {
    forall|key: EnvKey| !(#[trigger] last_value(e1, key) is Some && last_value(e2, key) is Some)
}

/// `a` and `b` hold the same settings: `b` is `a` with no override applied.
pub open spec fn config_settings_equal(a: Config, b: Config) -> bool {
    config_env_applied(a, b, Seq::<(String, String)>::empty())
}

/// Applying the same overrides twice gives what applying them once gives.
pub proof fn lemma_apply_env_twice(c: Config, c1: Config, c2: Config, env: Seq<(String, String)>)
    requires
        config_env_applied(c, c1, env),
        config_env_applied(c1, c2, env),
    ensures
        config_settings_equal(c1, c2),
{
}

/// Applying `e1` and then `e2` gives what applying `e1` followed by `e2`
/// in one list gives.
#[verifier::rlimit(40)]
pub proof fn lemma_apply_env_in_parts(
    c: Config,
    c1: Config,
    c2: Config,
    e1: Seq<(String, String)>,
    e2: Seq<(String, String)>,
)
    requires
        config_env_applied(c, c1, e1),
        config_env_applied(c1, c2, e2),
    ensures
        config_env_applied(c, c2, e1 + e2),
{
    assert forall|key: EnvKey| #[trigger] last_value(e1 + e2, key) == match last_value(e2, key) {
        Some(v) => Some(v),
        None => last_value(e1, key),
    } by {
        lemma_last_value_concat(e1, e2, key);
    }
    assert forall|key: EnvKey, max: nat| #[trigger] last_number(e1 + e2, key, max) == match last_number(e2, key, max) {
        Some(n) => Some(n),
        None => last_number(e1, key, max),
    } by {
        lemma_last_number_concat(e1, e2, key, max);
    }
}

/// Two override lists that agree on every setting give the same settings.
proof fn lemma_same_overrides(
    c: Config,
    x: Config,
    y: Config,
    ea: Seq<(String, String)>,
    eb: Seq<(String, String)>,
)
    requires
        config_env_applied(c, x, ea),
        config_env_applied(c, y, eb),
        forall|key: EnvKey| #[trigger] last_value(ea, key) == last_value(eb, key),
        forall|key: EnvKey, max: nat| #[trigger] last_number(ea, key, max) == last_number(eb, key, max),
    ensures
        config_settings_equal(x, y),
{
}

/// Overrides that name disjoint settings give the same configuration in
/// either order.
pub proof fn lemma_apply_env_order_free(
    c: Config,
    x: Config,
    y: Config,
    e1: Seq<(String, String)>,
    e2: Seq<(String, String)>,
)
    requires
        env_disjoint(e1, e2),
        config_env_applied(c, x, e1 + e2),
        config_env_applied(c, y, e2 + e1),
    ensures
        config_settings_equal(x, y),
{
    assert forall|key: EnvKey| #[trigger] last_value(e1 + e2, key) == last_value(e2 + e1, key) by {
        lemma_last_value_concat(e1, e2, key);
        lemma_last_value_concat(e2, e1, key);
    }
    assert forall|key: EnvKey, max: nat| #[trigger] last_number(e1 + e2, key, max) == last_number(e2 + e1, key, max) by {
        lemma_last_number_concat(e1, e2, key, max);
        lemma_last_number_concat(e2, e1, key, max);
        assert(!(last_value(e1, key) is Some && last_value(e2, key) is Some));
    }
    lemma_same_overrides(c, x, y, e1 + e2, e2 + e1);
}

proof fn lemma_modelscfg_step(start: ModelsCfg, c1: ModelsCfg, c2: ModelsCfg, env: Seq<(String, String)>, i: int)
    requires
        0 <= i < env.len(),
        modelscfg_env_applied(start, c1, env.take(i)),
        match env_key_spec(env[i].0@) {
            Some(key) => modelscfg_one(c1, c2, key, env[i].1@),
            None => modelscfg_same(c1, c2),
        },
    ensures
        modelscfg_env_applied(start, c2, env.take(i + 1)),
{
    lemma_embeddingmodelcfg_step(start.embedding, c1.embedding, c2.embedding, env, i);
    lemma_llmcfg_step(start.llm, c1.llm, c2.llm, env, i);
    lemma_nlicfg_step(start.nli, c1.nli, c2.nli, env, i);
}

proof fn lemma_imagecfg_step(start: ImageCfg, c1: ImageCfg, c2: ImageCfg, env: Seq<(String, String)>, i: int)
    requires
        0 <= i < env.len(),
        imagecfg_env_applied(start, c1, env.take(i)),
        match env_key_spec(env[i].0@) {
            Some(key) => imagecfg_one(c1, c2, key, env[i].1@),
            None => imagecfg_same(c1, c2),
        },
    ensures
        imagecfg_env_applied(start, c2, env.take(i + 1)),
{
    lemma_ocrcfg_step(start.ocr, c1.ocr, c2.ocr, env, i);
    lemma_captioncfg_step(start.caption, c1.caption, c2.caption, env, i);
}

proof fn lemma_pdfcfg_step(start: PdfCfg, c1: PdfCfg, c2: PdfCfg, env: Seq<(String, String)>, i: int)
    requires
        0 <= i < env.len(),
        pdfcfg_env_applied(start, c1, env.take(i)),
        match env_key_spec(env[i].0@) {
            Some(key) => pdfcfg_one(c1, c2, key, env[i].1@),
            None => pdfcfg_same(c1, c2),
        },
    ensures
        pdfcfg_env_applied(start, c2, env.take(i + 1)),
{
    lemma_pdfocrcfg_step(start.ocr, c1.ocr, c2.ocr, env, i);
}

/// One more environment entry keeps the relation.
proof fn lemma_config_step(start: Config, c1: Config, c2: Config, env: Seq<(String, String)>, i: int)
    requires
        0 <= i < env.len(),
        config_env_applied(start, c1, env.take(i)),
        match env_key_spec(env[i].0@) {
            Some(key) => config_one(c1, c2, key, env[i].1@),
            None => config_same(c1, c2),
        },
    ensures
        config_env_applied(start, c2, env.take(i + 1)),
{
        lemma_workspacecfg_step(start.workspace, c1.workspace, c2.workspace, env, i);
        lemma_storagecfg_step(start.storage, c1.storage, c2.storage, env, i);
        lemma_indexingcfg_step(start.indexing, c1.indexing, c2.indexing, env, i);
        lemma_chunkingcfg_step(start.chunking, c1.chunking, c2.chunking, env, i);
        lemma_modelscfg_step(start.models, c1.models, c2.models, env, i);
        lemma_searchcfg_step(start.search, c1.search, c2.search, env, i);
        lemma_ragcfg_step(start.rag, c1.rag, c2.rag, env, i);
        lemma_imagecfg_step(start.image, c1.image, c2.image, env, i);
        lemma_pdfcfg_step(start.pdf, c1.pdf, c2.pdf, env, i);
}

impl Config {
    /// Apply the one override `key` = `v`.
    pub fn apply_key(&mut self, key: EnvKey, v: &String)
        ensures
            config_one(*old(self), *final(self), key, v@),
    {
        self.workspace.apply_key(key, v);
        self.storage.apply_key(key, v);
        self.indexing.apply_key(key, v);
        self.chunking.apply_key(key, v);
        self.models.apply_key(key, v);
        self.search.apply_key(key, v);
        self.rag.apply_key(key, v);
        self.image.apply_key(key, v);
        self.pdf.apply_key(key, v);
    }
}

/// A config file that could not be read or parsed: its path and why.
#[derive(Debug)]
pub struct ConfigInvalid {
    pub path: String,
    pub cause: String,
}

impl ConfigInvalid {
    /// `config invalid at {path}: {cause}`.
    pub fn message(&self) -> (res: String)
        ensures
            res@ == "config invalid at "@ + self.path@ + ": "@ + self.cause@,
    {
        let mut s = String::from_str("config invalid at ");
        s.append(self.path.as_str());
        s.append(": ");
        s.append(self.cause.as_str());
        s
    }
}

/// An explicitly named config file that does not exist.
#[derive(Debug)]
pub struct ConfigNotFound {
    pub path: String,
}

impl ConfigNotFound {
    /// `config file does not exist: {path}`.
    pub fn message(&self) -> (res: String)
        ensures
            res@ == "config file does not exist: "@ + self.path@,
    {
        let mut s = String::from_str("config file does not exist: ");
        s.append(self.path.as_str());
        s
    }
}

} // verus!
