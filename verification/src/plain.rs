//! Plain-text renderings of `kebab fetch`, `kebab ask` and `kebab schema`
//! for a terminal: what the command prints, computed from the result it
//! received. Printing is left to the caller.

use vstd::prelude::*;
use crate::hashing::{decimal, push_decimal};
use crate::text::{chars_of, join_with, string_from_chars, strings_view};

verus! {

/// Append the characters of `s` to `out`.
fn put(out: &mut Vec<char>, s: &str)
    ensures
        final(out)@ == old(out)@ + s@,
{
    let mut c = chars_of(s);
    out.append(&mut c);
}

/// What `kebab fetch` returned: a chunk with its neighbours, a whole
/// document, or a span of one.
#[derive(Clone, Copy, Debug, PartialEq, Eq, Structural)]
pub enum FetchKind {
    Chunk,
    Doc,
    Span,
}

/// The label of a fetch kind.
pub open spec fn kind_label(k: FetchKind) -> Seq<char> {
    match k {
        FetchKind::Chunk => "chunk"@,
        FetchKind::Doc => "doc"@,
        FetchKind::Span => "span"@,
    }
}

/// The label of `k` (see `kind_label`).
pub fn format_kind(k: FetchKind) -> (res: &'static str)
    ensures
        res@ == kind_label(k),
{
    match k {
        FetchKind::Chunk => "chunk",
        FetchKind::Doc => "doc",
        FetchKind::Span => "span",
    }
}

/// A chunk in a fetch result.
#[derive(Debug)]
pub struct FetchedChunk {
    pub chunk_id: String,
    pub heading_path: Vec<String>,
    pub text: String,
}

/// The result of `kebab fetch`; `indexed_at` is the indexing time as the
/// caller renders it.
#[derive(Debug)]
pub struct FetchResult {
    pub doc_path: String,
    pub kind: FetchKind,
    pub stale: bool,
    pub indexed_at: String,
    pub context_before: Vec<FetchedChunk>,
    pub chunk: Option<FetchedChunk>,
    pub context_after: Vec<FetchedChunk>,
    pub text: Option<String>,
    pub truncated: bool,
}

/// The innermost heading of a heading path, empty for none.
pub open spec fn last_heading(hp: Seq<String>) -> Seq<char> {
    if hp.len() == 0 {
        seq![]
    } else {
        hp.last()@
    }
}

/// A chunk as printed: `[{id} § {heading}]`, its text, and a blank line.
pub open spec fn chunk_text_block(c: FetchedChunk) -> Seq<char> {
    "["@ + c.chunk_id@ + " § "@ + last_heading(c.heading_path@) + "]\n"@ + c.text@ + "\n\n"@
}

/// Chunks printed one after the other.
pub open spec fn chunk_text_blocks(cs: Seq<FetchedChunk>) -> Seq<char>
    decreases cs.len(),
{
    if cs.len() == 0 {
        seq![]
    } else {
        chunk_text_blocks(cs.drop_last()) + chunk_text_block(cs.last())
    }
}

/// A titled group of context chunks; nothing when there are none.
pub open spec fn context_section(title: Seq<char>, cs: Seq<FetchedChunk>) -> Seq<char> {
    if cs.len() == 0 {
        seq![]
    } else {
        title + chunk_text_blocks(cs)
    }
}

/// Everything after the header: for a chunk, the chunks before it, the
/// chunk, the chunks after it; for a document or span, its text.
pub open spec fn fetch_body(r: FetchResult) -> Seq<char> {
    match r.kind {
        FetchKind::Chunk => context_section("\n=== before ===\n"@, r.context_before@) + match r.chunk {
            Some(c) => "\n=== target ===\n"@ + chunk_text_block(c),
            None => seq![],
        } + context_section("\n=== after ===\n"@, r.context_after@),
        _ => match r.text {
            Some(t) => "\n"@ + t@ + "\n"@,
            None => seq![],
        },
    }
}

/// The standard output of `kebab fetch` in plain mode.
pub open spec fn fetch_plain_spec(r: FetchResult) -> Seq<char> {
    "# "@ + r.doc_path@ + " ("@ + kind_label(r.kind) + ")\n"@ + (if r.stale {
        "[stale; indexed_at = "@ + r.indexed_at@ + "]\n"@
    } else {
        seq![]
    }) + fetch_body(r)
}

/// The standard-error note of `kebab fetch` in plain mode: a hint to
/// widen the budget when a document or span text was truncated.
pub open spec fn fetch_note_spec(r: FetchResult) -> Seq<char> {
    if r.kind != FetchKind::Chunk && r.truncated {
        "[truncated; widen --max-tokens for fuller text]\n"@
    } else {
        seq![]
    }
}

fn push_chunk_block(out: &mut Vec<char>, c: &FetchedChunk)
    ensures
        final(out)@ == old(out)@ + chunk_text_block(*c),
{
    let ghost start = out@;
    put(out, "[");
    put(out, c.chunk_id.as_str());
    put(out, " § ");
    let n = c.heading_path.len();
    if n > 0 {
        put(out, c.heading_path[n - 1].as_str());
    }
    put(out, "]\n");
    put(out, c.text.as_str());
    put(out, "\n\n");
    proof {
        assert(out@ =~= start + chunk_text_block(*c));
    }
}

fn push_section(out: &mut Vec<char>, title: &str, cs: &Vec<FetchedChunk>)
    ensures
        final(out)@ == old(out)@ + context_section(title@, cs@),
{
    if cs.len() == 0 {
        proof {
            assert(out@ =~= old(out)@ + context_section(title@, cs@));
        }
        return;
    }
    put(out, title);
    let ghost head = out@;
    let mut i: usize = 0;
    while i < cs.len()
        invariant
            i <= cs@.len(),
            out@ == head + chunk_text_blocks(cs@.take(i as int)),
        decreases cs@.len() - i,
    {
        push_chunk_block(out, &cs[i]);
        proof {
            assert(cs@.take(i + 1).drop_last() =~= cs@.take(i as int));
            assert(out@ =~= head + chunk_text_blocks(cs@.take(i + 1)));
        }
        i = i + 1;
    }
    proof {
        assert(cs@.take(cs@.len() as int) =~= cs@);
        assert(out@ =~= old(out)@ + context_section(title@, cs@));
    }
}

/// The plain-mode output of `kebab fetch`: what goes to standard output
/// and what goes to standard error.
pub fn render_fetch_plain(r: &FetchResult) -> (res: (String, String))
    ensures
        res.0@ == fetch_plain_spec(*r),
        res.1@ == fetch_note_spec(*r),
{
    let mut out: Vec<char> = Vec::new();
    put(&mut out, "# ");
    put(&mut out, r.doc_path.as_str());
    put(&mut out, " (");
    put(&mut out, format_kind(r.kind));
    put(&mut out, ")\n");
    if r.stale {
        put(&mut out, "[stale; indexed_at = ");
        put(&mut out, r.indexed_at.as_str());
        put(&mut out, "]\n");
    }
    let ghost head = out@;
    let mut note: Vec<char> = Vec::new();
    match r.kind {
        FetchKind::Chunk => {
            push_section(&mut out, "\n=== before ===\n", &r.context_before);
            let ghost mid = out@;
            match &r.chunk {
                Some(c) => {
                    put(&mut out, "\n=== target ===\n");
                    push_chunk_block(&mut out, c);
                },
                None => {},
            }
            push_section(&mut out, "\n=== after ===\n", &r.context_after);
        },
        _ => {
            match &r.text {
                Some(t) => {
                    put(&mut out, "\n");
                    put(&mut out, t.as_str());
                    put(&mut out, "\n");
                },
                None => {},
            }
            if r.truncated {
                put(&mut note, "[truncated; widen --max-tokens for fuller text]\n");
            }
        },
    }
    proof {
        assert(out@ =~= head + fetch_body(*r));
        assert(out@ =~= fetch_plain_spec(*r));
        assert(note@ =~= fetch_note_spec(*r));
    }
    (string_from_chars(&out), string_from_chars(&note))
}

/// The `wire` block of a schema description.
#[derive(Debug)]
pub struct WireBlock {
    pub schemas: Vec<String>,
}

/// The capabilities a `kebab` build advertises.
#[derive(Clone, Copy, Debug)]
pub struct Capabilities {
    pub json_mode: bool,
    pub ingest_progress: bool,
    pub ingest_cancellation: bool,
    pub rag_multi_turn: bool,
    pub search_cache: bool,
    pub incremental_ingest: bool,
    pub streaming_ask: bool,
    pub http_daemon: bool,
    pub mcp_server: bool,
    pub single_file_ingest: bool,
    pub bulk_search: bool,
}

/// The versions of the models and formats in use.
#[derive(Debug)]
pub struct Models {
    pub parser_version: String,
    pub chunker_version: String,
    pub embedding_version: String,
    pub prompt_template_version: String,
    pub index_version: String,
    pub corpus_revision: u64,
}

/// Corpus statistics.
#[derive(Debug)]
pub struct Stats {
    pub doc_count: u64,
    pub chunk_count: u64,
    pub asset_count: u64,
    pub last_ingest_at: Option<String>,
}

/// What `kebab schema` describes.
#[derive(Debug)]
pub struct SchemaV1 {
    pub kebab_version: String,
    pub wire: WireBlock,
    pub capabilities: Capabilities,
    pub models: Models,
    pub stats: Stats,
}

/// `✓` for a capability that is on, `✗` for one that is off.
pub open spec fn mark(on: bool) -> Seq<char> {
    if on {
        "✓"@
    } else {
        "✗"@
    }
}

/// One capability line.
#[verifier::opaque]
pub open spec fn capability_line(on: bool, name: Seq<char>) -> Seq<char> {
    "  "@ + mark(on) + " "@ + name + "\n"@
}

/// The capability lines, in their fixed order.
pub open spec fn capability_lines(c: Capabilities) -> Seq<char> {
    capability_lines_head(c) + capability_lines_tail(c)
}

/// The first six capability lines.
pub open spec fn capability_lines_head(c: Capabilities) -> Seq<char> {
    capability_line(c.json_mode, "json_mode"@)
        + capability_line(c.ingest_progress, "ingest_progress"@)
        + capability_line(c.ingest_cancellation, "ingest_cancellation"@)
        + capability_line(c.rag_multi_turn, "rag_multi_turn"@)
        + capability_line(c.search_cache, "search_cache"@)
        + capability_line(c.incremental_ingest, "incremental_ingest"@)
}

/// The remaining capability lines.
pub open spec fn capability_lines_tail(c: Capabilities) -> Seq<char> {
    capability_line(c.streaming_ask, "streaming_ask"@)
        + capability_line(c.http_daemon, "http_daemon"@)
        + capability_line(c.mcp_server, "mcp_server"@)
        + capability_line(c.single_file_ingest, "single_file_ingest"@)
        + capability_line(c.bulk_search, "bulk_search"@)
}

/// The `models` section.
pub open spec fn models_section(m: Models) -> Seq<char> {
    "models\n"@
        + "  parser_version          "@ + m.parser_version@ + "\n"@
        + "  chunker_version         "@ + m.chunker_version@ + "\n"@
        + "  embedding_version       "@ + m.embedding_version@ + "\n"@
        + "  prompt_template_version "@ + m.prompt_template_version@ + "\n"@
        + "  index_version           "@ + m.index_version@ + "\n"@
        + "  corpus_revision         "@ + decimal(m.corpus_revision as nat) + "\n"@
}

/// The `stats` section.
pub open spec fn stats_section(s: Stats) -> Seq<char> {
    "stats\n"@
        + "  doc_count               "@ + decimal(s.doc_count as nat) + "\n"@
        + "  chunk_count             "@ + decimal(s.chunk_count as nat) + "\n"@
        + "  asset_count             "@ + decimal(s.asset_count as nat) + "\n"@
        + "  last_ingest_at          "@ + match s.last_ingest_at {
            Some(t) => t@,
            None => "(never)"@,
        } + "\n"@
}

/// The text of `kebab schema` in plain mode: version, wire schemas,
/// capabilities, models and stats, the sections separated by blank lines.
pub open spec fn schema_text_spec(s: SchemaV1) -> Seq<char> {
    "kebab v"@ + s.kebab_version@ + "\n\n"@ + "wire schemas\n"@ + "  "@ + join_with(
        strings_view(s.wire.schemas@),
        ", "@,
    ) + "\n\n"@ + "capabilities\n"@ + capability_lines(s.capabilities) + "\n"@ + models_section(s.models)
        + "\n"@ + stats_section(s.stats)
}

fn push_capability(out: &mut Vec<char>, on: bool, name: &str)
    ensures
        final(out)@ == old(out)@ + capability_line(on, name@),
{
    let ghost start = out@;
    put(out, "  ");
    if on {
        put(out, "✓");
    } else {
        put(out, "✗");
    }
    put(out, " ");
    put(out, name);
    put(out, "\n");
    proof {
        reveal(capability_line);
        assert(out@ =~= start + capability_line(on, name@));
    }
}

fn push_capabilities_head(out: &mut Vec<char>, c: &Capabilities)
    ensures
        final(out)@ == old(out)@ + capability_lines_head(*c),
{
    let ghost start = out@;
    push_capability(out, c.json_mode, "json_mode");
    push_capability(out, c.ingest_progress, "ingest_progress");
    push_capability(out, c.ingest_cancellation, "ingest_cancellation");
    push_capability(out, c.rag_multi_turn, "rag_multi_turn");
    push_capability(out, c.search_cache, "search_cache");
    push_capability(out, c.incremental_ingest, "incremental_ingest");
    proof {
        assert(out@ =~= start + capability_lines_head(*c));
    }
}

fn push_capabilities_tail(out: &mut Vec<char>, c: &Capabilities)
    ensures
        final(out)@ == old(out)@ + capability_lines_tail(*c),
{
    let ghost start = out@;
    push_capability(out, c.streaming_ask, "streaming_ask");
    push_capability(out, c.http_daemon, "http_daemon");
    push_capability(out, c.mcp_server, "mcp_server");
    push_capability(out, c.single_file_ingest, "single_file_ingest");
    push_capability(out, c.bulk_search, "bulk_search");
    proof {
        assert(out@ =~= start + capability_lines_tail(*c));
    }
}

fn push_models(out: &mut Vec<char>, m: &Models)
    ensures
        final(out)@ == old(out)@ + models_section(*m),
{
    let ghost start = out@;
    put(out, "models\n");
    put(out, "  parser_version          ");
    put(out, m.parser_version.as_str());
    put(out, "\n");
    put(out, "  chunker_version         ");
    put(out, m.chunker_version.as_str());
    put(out, "\n");
    put(out, "  embedding_version       ");
    put(out, m.embedding_version.as_str());
    put(out, "\n");
    put(out, "  prompt_template_version ");
    put(out, m.prompt_template_version.as_str());
    put(out, "\n");
    put(out, "  index_version           ");
    put(out, m.index_version.as_str());
    put(out, "\n");
    put(out, "  corpus_revision         ");
    push_decimal(out, m.corpus_revision);
    put(out, "\n");
    proof {
        assert(out@ =~= start + models_section(*m));
    }
}

fn push_stats(out: &mut Vec<char>, s: &Stats)
    ensures
        final(out)@ == old(out)@ + stats_section(*s),
{
    let ghost start = out@;
    put(out, "stats\n");
    put(out, "  doc_count               ");
    push_decimal(out, s.doc_count);
    put(out, "\n");
    put(out, "  chunk_count             ");
    push_decimal(out, s.chunk_count);
    put(out, "\n");
    put(out, "  asset_count             ");
    push_decimal(out, s.asset_count);
    put(out, "\n");
    put(out, "  last_ingest_at          ");
    match &s.last_ingest_at {
        Some(t) => put(out, t.as_str()),
        None => put(out, "(never)"),
    }
    put(out, "\n");
    proof {
        assert(out@ =~= start + stats_section(*s));
    }
}

/// Append `parts` joined by `sep` to `out`.
fn push_joined(out: &mut Vec<char>, parts: &Vec<String>, sep: &str)
    ensures
        final(out)@ == old(out)@ + join_with(strings_view(parts@), sep@),
{
    let ghost start = out@;
    let ghost pv = strings_view(parts@);
    let mut i: usize = 0;
    while i < parts.len()
        invariant
            i <= parts@.len(),
            pv == strings_view(parts@),
            out@ == start + join_with(pv.take(i as int), sep@),
        decreases parts@.len() - i,
    {
        if i > 0 {
            put(out, sep);
        }
        put(out, parts[i].as_str());
        proof {
            assert(pv.take(i + 1).drop_last() =~= pv.take(i as int));
            assert(pv.take(i + 1).last() == parts@[i as int]@);
            assert(out@ =~= start + join_with(pv.take(i + 1), sep@));
        }
        i = i + 1;
    }
    proof {
        assert(pv.take(parts@.len() as int) =~= pv);
    }
}

/// The plain-mode text of `kebab schema` (see `schema_text_spec`).
pub fn print_schema_text(s: &SchemaV1) -> (res: String)
    ensures
        res@ == schema_text_spec(*s),
{
    let mut out: Vec<char> = Vec::new();
    put(&mut out, "kebab v");
    put(&mut out, s.kebab_version.as_str());
    put(&mut out, "\n\n");
    put(&mut out, "wire schemas\n");
    put(&mut out, "  ");
    push_joined(&mut out, &s.wire.schemas, ", ");
    put(&mut out, "\n\n");
    put(&mut out, "capabilities\n");
    push_capabilities_head(&mut out, &s.capabilities);
    push_capabilities_tail(&mut out, &s.capabilities);
    put(&mut out, "\n");
    push_models(&mut out, &s.models);
    put(&mut out, "\n");
    push_stats(&mut out, &s.stats);
    proof {
        assert(out@ =~= schema_text_spec(*s));
    }
    string_from_chars(&out)
}

/// A citation of an answer: its marker (by default its 1-based position),
/// its URI and whether the cited document changed since it was indexed.
#[derive(Debug)]
pub struct AskCitation {
    pub marker: Option<String>,
    pub uri: String,
    pub stale: bool,
}

/// The retrieval summary of an answer; `top_score` is the best score as
/// the caller renders it, with two decimals.
#[derive(Debug)]
pub struct AskRetrieval {
    pub top_score: String,
    pub k: u64,
    pub chunks_used: u64,
    pub chunks_returned: u64,
}

/// The `[stale]` tag of a citation line: yellow on a colour terminal,
/// plain otherwise, nothing for a fresh citation.
pub open spec fn stale_tag(stale: bool, color: bool) -> Seq<char> {
    if !stale {
        seq![]
    } else if color {
        "\x1b[33m[stale]\x1b[0m "@
    } else {
        "[stale] "@
    }
}

/// The marker of citation `c` at position `idx`.
pub open spec fn citation_marker(c: AskCitation, idx: nat) -> Seq<char> {
    match c.marker {
        Some(m) => m@,
        None => decimal(idx + 1),
    }
}

/// The line of citation `c` at position `idx`.
pub open spec fn citation_line(c: AskCitation, idx: nat, color: bool) -> Seq<char> {
    "  ["@ + citation_marker(c, idx) + "] "@ + stale_tag(c.stale, color) + c.uri@ + "\n"@
}

/// The lines of the citations `cs`.
pub open spec fn citation_lines(cs: Seq<AskCitation>, color: bool) -> Seq<char>
    decreases cs.len(),
{
    if cs.len() == 0 {
        seq![]
    } else {
        citation_lines(cs.drop_last(), color) + citation_line(cs.last(), (cs.len() - 1) as nat, color)
    }
}

/// The citation block printed under a plain-mode answer: a blank line,
/// the `근거:` header, one line per citation, and the retrieval summary.
pub open spec fn ask_citations_spec(cs: Seq<AskCitation>, r: AskRetrieval, color: bool) -> Seq<char> {
    "\n근거:\n"@ + citation_lines(cs, color) + "(retrieval: top_score="@ + r.top_score@ + ", k="@ + decimal(
        r.k as nat,
    ) + ", used="@ + decimal(r.chunks_used as nat) + "/"@ + decimal(r.chunks_returned as nat) + ")\n"@
}

fn push_citation(out: &mut Vec<char>, c: &AskCitation, idx: usize, color: bool)
    requires
        idx < usize::MAX,
    ensures
        final(out)@ == old(out)@ + citation_line(*c, idx as nat, color),
{
    let ghost start = out@;
    put(out, "  [");
    match &c.marker {
        Some(m) => put(out, m.as_str()),
        None => push_decimal(out, idx as u64 + 1),
    }
    put(out, "] ");
    if c.stale {
        if color {
            put(out, "\x1b[33m[stale]\x1b[0m ");
        } else {
            put(out, "[stale] ");
        }
    }
    put(out, c.uri.as_str());
    put(out, "\n");
    proof {
        assert(out@ =~= start + citation_line(*c, idx as nat, color));
    }
}

/// The citation block of a plain-mode answer (see `ask_citations_spec`);
/// `color` selects the ANSI form of the `[stale]` tag.
pub fn render_ask_plain_citations(cs: &Vec<AskCitation>, r: &AskRetrieval, color: bool) -> (res: String)
    ensures
        res@ == ask_citations_spec(cs@, *r, color),
{
    let mut out: Vec<char> = Vec::new();
    put(&mut out, "\n근거:\n");
    let ghost head = out@;
    let mut i: usize = 0;
    while i < cs.len()
        invariant
            i <= cs@.len(),
            out@ == head + citation_lines(cs@.take(i as int), color),
        decreases cs@.len() - i,
    {
        push_citation(&mut out, &cs[i], i, color);
        proof {
            assert(cs@.take(i + 1).drop_last() =~= cs@.take(i as int));
            assert(out@ =~= head + citation_lines(cs@.take(i + 1), color));
        }
        i = i + 1;
    }
    proof {
        assert(cs@.take(cs@.len() as int) =~= cs@);
    }
    put(&mut out, "(retrieval: top_score=");
    put(&mut out, r.top_score.as_str());
    put(&mut out, ", k=");
    push_decimal(&mut out, r.k);
    put(&mut out, ", used=");
    push_decimal(&mut out, r.chunks_used);
    put(&mut out, "/");
    push_decimal(&mut out, r.chunks_returned);
    put(&mut out, ")\n");
    proof {
        assert(out@ =~= ask_citations_spec(cs@, *r, color));
    }
    string_from_chars(&out)
}

} // verus!
