//! Document and chunk model consumed and produced by the chunkers.
//!
//! A `CanonicalDocument` is an ordered list of typed blocks; a chunker turns
//! it into `Chunk`s that record which blocks they came from, where in the
//! source they point, their text and a token estimate.

use vstd::prelude::*;

verus! {

/// Where in the source a block or chunk comes from.
#[derive(Debug, PartialEq, Eq)]
pub enum SourceSpan {
    /// A 1-indexed inclusive line range of a text file.
    Line { start: u32, end: u32 },
    /// A page of a paged document, optionally narrowed to a character range
    /// (`char_start..char_end`, characters within the page text).
    Page { page: u32, char_start: Option<u32>, char_end: Option<u32> },
    /// A line range of a source-code file, with the semantic unit's symbol
    /// and language when known.
    Code { line_start: u32, line_end: u32, symbol: Option<String>, lang: Option<String> },
}

/// Fields every block carries.
#[derive(Debug)]
pub struct CommonBlock {
    pub block_id: String,
    /// Titles of the enclosing headings, outermost first. A heading block's
    /// own path lists only its parents.
    pub heading_path: Vec<String>,
    pub source_span: SourceSpan,
}

#[derive(Debug)]
pub struct HeadingBlock {
    pub common: CommonBlock,
    pub level: u8,
    pub text: String,
}

#[derive(Debug)]
pub struct TextBlock {
    pub common: CommonBlock,
    pub text: String,
}

#[derive(Debug)]
pub struct ListItem {
    pub text: String,
}

#[derive(Debug)]
pub struct ListBlock {
    pub common: CommonBlock,
    pub items: Vec<ListItem>,
}

#[derive(Debug)]
pub struct CodeBlock {
    pub common: CommonBlock,
    pub lang: Option<String>,
    pub code: String,
}

#[derive(Debug)]
pub struct TableBlock {
    pub common: CommonBlock,
    pub headers: Vec<String>,
    pub rows: Vec<Vec<String>>,
}

/// An embedded image: its source path, alt text, and (when the pipeline
/// ran them) the OCR text and the model caption.
#[derive(Debug)]
pub struct ImageRefBlock {
    pub common: CommonBlock,
    pub src: String,
    pub alt: String,
    pub ocr: Option<String>,
    pub caption: Option<String>,
}

#[derive(Debug)]
pub struct AudioRefBlock {
    pub common: CommonBlock,
}

/// A block of a canonical document.
#[derive(Debug)]
pub enum Block {
    Heading(HeadingBlock),
    Paragraph(TextBlock),
    Quote(TextBlock),
    List(ListBlock),
    Code(CodeBlock),
    Table(TableBlock),
    ImageRef(ImageRefBlock),
    AudioRef(AudioRefBlock),
}

/// A parsed document: its identifier and its blocks in document order.
#[derive(Debug)]
pub struct CanonicalDocument {
    pub doc_id: String,
    pub blocks: Vec<Block>,
}

/// The chunking policy. Every field flows into the policy hash.
#[derive(Debug)]
pub struct ChunkPolicy {
    pub target_tokens: usize,
    pub overlap_tokens: usize,
    pub respect_markdown_headings: bool,
    pub chunker_version: String,
}

/// One emitted chunk.
#[derive(Debug)]
pub struct Chunk {
    pub chunk_id: String,
    pub doc_id: String,
    pub block_ids: Vec<String>,
    pub text: String,
    pub heading_path: Vec<String>,
    pub source_spans: Vec<SourceSpan>,
    pub token_estimate: usize,
    pub chunker_version: String,
    pub policy_hash: String,
    /// Morpheme-split form of `text` for Korean lexical search, when the
    /// chunker computes it.
    pub tokenized_korean_text: Option<String>,
}

/// Why a chunker refused a document.
#[derive(PartialEq, Eq, Structural, Clone, Copy, Debug)]
pub enum ChunkError {
    /// The code chunker received a block that is not a code block.
    NonCodeBlock,
    /// The code chunker received a code block whose span is not a code span.
    NonCodeSpan,
    /// The PDF chunker received a block that is not a paragraph.
    NonParagraphBlock,
    /// The PDF chunker received a paragraph whose span is not a page span.
    NonPageSpan,
}

impl ChunkError {
    /// Human-readable message naming the chunker that refused the document.
    pub fn message(&self) -> (res: String)
        ensures
            res@ == self.message_spec(),
    {
        match self {
            ChunkError::NonCodeBlock => String::from_str(
                "CodeTsAstV1Chunker only handles code docs (got non-Code block)",
            ),
            ChunkError::NonCodeSpan => String::from_str(
                "CodeTsAstV1Chunker only handles code docs (got non-Code source_span)",
            ),
            ChunkError::NonParagraphBlock => String::from_str(
                "PdfPageV1Chunker only handles PDF docs (got non-Paragraph block)",
            ),
            ChunkError::NonPageSpan => String::from_str(
                "PdfPageV1Chunker only handles PDF docs (got non-Page source_span)",
            ),
        }
    }

    pub open spec fn message_spec(&self) -> Seq<char> {
        match self {
            ChunkError::NonCodeBlock => "CodeTsAstV1Chunker only handles code docs (got non-Code block)"@,
            ChunkError::NonCodeSpan => "CodeTsAstV1Chunker only handles code docs (got non-Code source_span)"@,
            ChunkError::NonParagraphBlock => "PdfPageV1Chunker only handles PDF docs (got non-Paragraph block)"@,
            ChunkError::NonPageSpan => "PdfPageV1Chunker only handles PDF docs (got non-Page source_span)"@,
        }
    }
}

impl Clone for SourceSpan {
    fn clone(&self) -> (res: Self)
        ensures
            res == *self,
    {
        match self {
            SourceSpan::Line { start, end } => SourceSpan::Line { start: *start, end: *end },
            SourceSpan::Page { page, char_start, char_end } => SourceSpan::Page {
                page: *page,
                char_start: *char_start,
                char_end: *char_end,
            },
            SourceSpan::Code { line_start, line_end, symbol, lang } => SourceSpan::Code {
                line_start: *line_start,
                line_end: *line_end,
                symbol: clone_opt_string(symbol),
                lang: clone_opt_string(lang),
            },
        }
    }
}

impl Chunk {
    /// `self` and `other` hold the same values (vectors compared by their
    /// contents).
    pub open spec fn same_as(&self, other: &Chunk) -> bool {
        &&& self.chunk_id == other.chunk_id
        &&& self.doc_id == other.doc_id
        &&& self.block_ids@ == other.block_ids@
        &&& self.text == other.text
        &&& self.heading_path@ == other.heading_path@
        &&& self.source_spans@ == other.source_spans@
        &&& self.token_estimate == other.token_estimate
        &&& self.chunker_version == other.chunker_version
        &&& self.policy_hash == other.policy_hash
        &&& self.tokenized_korean_text == other.tokenized_korean_text
    }
}

impl Clone for Chunk {
    fn clone(&self) -> (res: Self)
        ensures
            res.same_as(self),
    {
        Chunk {
            chunk_id: self.chunk_id.clone(),
            doc_id: self.doc_id.clone(),
            block_ids: clone_strings(&self.block_ids),
            text: self.text.clone(),
            heading_path: clone_strings(&self.heading_path),
            source_spans: clone_spans(&self.source_spans),
            token_estimate: self.token_estimate,
            chunker_version: self.chunker_version.clone(),
            policy_hash: self.policy_hash.clone(),
            tokenized_korean_text: clone_opt_string(&self.tokenized_korean_text),
        }
    }
}

/// An exact copy of an optional string.
pub fn clone_opt_string(s: &Option<String>) -> (res: Option<String>)
    ensures
        res == *s,
{
    match s {
        Some(v) => Some(v.clone()),
        None => None,
    }
}

/// An exact copy of a vector of strings.
pub fn clone_strings(v: &Vec<String>) -> (res: Vec<String>)
    ensures
        res@ == v@,
{
    let mut out: Vec<String> = Vec::new();
    let mut i: usize = 0;
    while i < v.len()
        invariant
            i <= v.len(),
            out@ == v@.take(i as int),
        decreases v.len() - i,
    {
        out.push(v[i].clone());
        proof {
            assert(v@.take(i + 1) =~= v@.take(i as int).push(v@[i as int]));
        }
        i = i + 1;
    }
    proof {
        assert(v@.take(v.len() as int) =~= v@);
    }
    out
}

/// An exact copy of a vector of spans.
pub fn clone_spans(v: &Vec<SourceSpan>) -> (res: Vec<SourceSpan>)
    ensures
        res@ == v@,
{
    let mut out: Vec<SourceSpan> = Vec::new();
    let mut i: usize = 0;
    while i < v.len()
        invariant
            i <= v.len(),
            out@ == v@.take(i as int),
        decreases v.len() - i,
    {
        out.push(v[i].clone());
        proof {
            assert(v@.take(i + 1) =~= v@.take(i as int).push(v@[i as int]));
        }
        i = i + 1;
    }
    proof {
        assert(v@.take(v.len() as int) =~= v@);
    }
    out
}

impl Block {
    /// The fields shared by every block variant.
    pub open spec fn common_spec(&self) -> CommonBlock {
        match self {
            Block::Heading(h) => h.common,
            Block::Paragraph(t) => t.common,
            Block::Quote(t) => t.common,
            Block::List(l) => l.common,
            Block::Code(c) => c.common,
            Block::Table(t) => t.common,
            Block::ImageRef(i) => i.common,
            Block::AudioRef(a) => a.common,
        }
    }

    pub fn common(&self) -> (res: &CommonBlock)
        ensures
            *res == self.common_spec(),
    {
        match self {
            Block::Heading(h) => &h.common,
            Block::Paragraph(t) => &t.common,
            Block::Quote(t) => &t.common,
            Block::List(l) => &l.common,
            Block::Code(c) => &c.common,
            Block::Table(t) => &t.common,
            Block::ImageRef(i) => &i.common,
            Block::AudioRef(a) => &a.common,
        }
    }
}

} // verus!
