//! `manifest-file-v1`: a build manifest (Cargo.toml, package.json, pom.xml,
//! go.mod, ...) as one chunk with the symbol `<manifest>`, its language
//! taken from the code block, spanning line 1 to the last line; above 200
//! lines it is cut into 200-line windows.

use vstd::prelude::*;
use crate::hashing::{is_lower_hex, policy_hash_of, policy_hash_spec};
use crate::model::{Block, CanonicalDocument, Chunk, ChunkError, ChunkPolicy, CodeBlock};
use crate::tier2::{lines_spec, oversize_chunks_ok, push_chunks_with_oversize, text_lines};

verus! {

/// Version label of [`ManifestFileV1Chunker`].
pub open spec fn manifest_label() -> Seq<char> {
    "manifest-file-v1"@
}

/// The language of a code block, or the empty text.
pub open spec fn lang_or_empty(l: Option<String>) -> Seq<char> {
    match l {
        Some(s) => s@,
        None => seq![],
    }
}

/// The document's first block when it is a code block.
pub open spec fn first_code_block(doc: CanonicalDocument) -> Option<CodeBlock> {
    if doc.blocks@.len() > 0 {
        match doc.blocks@[0] {
            Block::Code(cb) => Some(cb),
            _ => None,
        }
    } else {
        None
    }
}

/// The line count of a whole-file chunk: the text's lines, at least 1.
pub open spec fn file_line_count(text: Seq<char>) -> nat {
    if lines_spec(text).len() == 0 {
        1
    } else {
        lines_spec(text).len()
    }
}

pub fn lang_str(l: &Option<String>) -> (res: &str)
    ensures
        res@ == lang_or_empty(*l),
{
    match l {
        Some(s) => s.as_str(),
        None => {
            let e = "";
            proof {
                reveal_strlit("");
            }
            e
        },
    }
}

/// Whole-file manifest chunker (`manifest-file-v1`).
#[derive(Clone, Copy, Debug, Default)]
pub struct ManifestFileV1Chunker;

impl ManifestFileV1Chunker {
    pub fn chunker_version(&self) -> (res: String)
        ensures
            res@ == manifest_label(),
    {
        String::from_str("manifest-file-v1")
    }

    /// First 16 hex characters of the BLAKE3 digest of the policy's
    /// canonical JSON.
    pub fn policy_hash(&self, policy: &ChunkPolicy) -> (res: String)
        ensures
            res@ == policy_hash_spec(*policy, None),
            res@.len() == 16,
            forall|i: int| 0 <= i < 16 ==> is_lower_hex(#[trigger] res@[i]),
    {
        policy_hash_of(policy, None)
    }

    /// Chunk a manifest: no chunks unless the first block is a code block.
    pub fn chunk(&self, doc: &CanonicalDocument, policy: &ChunkPolicy) -> (res: Result<Vec<Chunk>, ChunkError>)
        requires
            first_code_block(*doc) matches Some(cb) ==> lines_spec(cb.code@).len() < u32::MAX,
        ensures
            match first_code_block(*doc) {
                Some(cb) => res matches Ok(chunks) && oversize_chunks_ok(
                    chunks@,
                    doc.doc_id@,
                    manifest_label(),
                    policy_hash_spec(*policy, None),
                    cb.code@,
                    1,
                    file_line_count(cb.code@) as u32,
                    Some("<manifest>"@),
                    Some(lang_or_empty(cb.lang)),
                    None,
                ),
                None => res matches Ok(chunks) && chunks@.len() == 0,
            },
    {
        if doc.blocks.len() == 0 {
            return Ok(Vec::new());
        }
        let cb = match &doc.blocks[0] {
            Block::Code(cb) => cb,
            _ => {
                return Ok(Vec::new());
            },
        };
        let text = cb.code.as_str();
        let lang = lang_str(&cb.lang);
        let count = text_lines(text).len();
        let total_lines: u32 = if count == 0 {
            1
        } else {
            count as u32
        };
        let mut chunks: Vec<Chunk> = Vec::new();
        push_chunks_with_oversize(
            &mut chunks,
            doc,
            policy,
            text,
            1,
            total_lines,
            "<manifest>",
            lang,
            "manifest-file-v1",
            None,
        );
        proof {
            assert(chunks@.subrange(0, chunks@.len() as int) =~= chunks@);
        }
        Ok(chunks)
    }
}

} // verus!
