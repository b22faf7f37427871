//! `md-heading-v2`: the `md-heading-v1` chunks, followed by an oversize
//! post-pass.
//!
//! The first pass produces exactly the chunks `md-heading-v1` would (under
//! v2's own version label and policy hash). A chunk whose text is within
//! the split budget (UTF-8 bytes / 3, rounded up) passes through unchanged.
//! A chunk above the budget is replaced by its `text_pieces`: each piece
//! keeps the chunk's document, block ids, heading path and source spans,
//! carries its own text, token estimate and Korean tokenization, stores the
//! bare policy hash, and takes its identifier from the policy hash
//! suffixed with `#seg{i}` for piece `i`.
//!
//! The budget is folded into the policy hash as its little-endian bytes, so
//! a budget change changes every chunk identifier.

use vstd::prelude::*;
use crate::hashing::{chunk_id_spec, decimal, id_for_chunk, is_lower_hex, policy_hash_of, policy_hash_spec, push_decimal};
use crate::korean::{tokenize_korean_morphological, tokenize_korean_spec};
use crate::md_heading::{
    block_ids_spec, chunk_built_from, chunk_fields_from, chunk_text_spec, chunk_v1_equivalent, chunks_from_groups,
    doc_fits, heading_path_spec, md_groups, spans_spec, strs,
};
use crate::model::{Block, CanonicalDocument, Chunk, ChunkError, ChunkPolicy, clone_spans, clone_strings};
use crate::oversize::{effective_budget, est_tokens, piece_fits, text_pieces, text_pieces_spec};
use crate::text::{chars_byte_len, chars_of, string_from_chars, strings_view, utf8_len};

verus! {

/// Version label of [`MdHeadingV2Chunker`].
pub open spec fn md_v2_label() -> Seq<char> {
    "md-heading-v2"@
}

/// The id-hash suffix of piece `i` of a split chunk: `#seg{i}`.
pub open spec fn seg_suffix(i: nat) -> Seq<char> {
    seq!['#', 's', 'e', 'g'] + decimal(i)
}

/// A text is within `budget` tokens.
pub open spec fn text_fits(t: Seq<char>, budget: nat) -> bool {
    est_tokens(utf8_len(t)) <= budget
}

/// The number of chunks the post-pass emits for a chunk of text `t`.
pub open spec fn v2_count(t: Seq<char>, budget: nat) -> nat {
    if text_fits(t, budget) {
        1
    } else {
        text_pieces_spec(t, budget).len()
    }
}

/// The blocks of run `g`.
pub open spec fn run_blocks(blocks: Seq<Block>, g: (int, int)) -> Seq<Block> {
    blocks.subrange(g.0, g.1)
}

/// Where the chunks of run `j` start in the output.
pub open spec fn v2_offset(blocks: Seq<Block>, groups: Seq<(int, int)>, budget: nat, j: int) -> nat
    decreases j,
{
    if j <= 0 {
        0
    } else {
        v2_offset(blocks, groups, budget, j - 1) + v2_count(
            chunk_text_spec(run_blocks(blocks, groups[j - 1])),
            budget,
        )
    }
}

/// Chunk `i` emitted for run `j`.
pub open spec fn chunk_at(
    chunks: Seq<Chunk>,
    blocks: Seq<Block>,
    groups: Seq<(int, int)>,
    budget: nat,
    j: int,
    i: int,
) -> Chunk {
    chunks[v2_offset(blocks, groups, budget, j) + i]
}

/// `c` is piece `i` (with text `piece`) of the oversize chunk made of `bs`.
pub open spec fn seg_built_from(
    c: Chunk,
    doc_id: Seq<char>,
    bs: Seq<Block>,
    piece: Seq<char>,
    i: nat,
    cv: Seq<char>,
    ph: Seq<char>,
) -> bool {
    &&& c.doc_id@ == doc_id
    &&& strs(c.block_ids@) == block_ids_spec(bs)
    &&& c.source_spans@ == spans_spec(bs)
    &&& strs(c.heading_path@) == heading_path_spec(bs[0])
    &&& c.text@ == piece
    &&& c.token_estimate as nat == est_tokens(utf8_len(piece))
    &&& c.chunker_version@ == cv
    &&& c.policy_hash@ == ph
    &&& c.chunk_id@ == chunk_id_spec(doc_id, cv, block_ids_spec(bs), ph + seg_suffix(i))
    &&& match c.tokenized_korean_text {
        Some(s) => tokenize_korean_spec(piece) == Some(s@),
        None => tokenize_korean_spec(piece) is None,
    }
}

/// The Korean tokenization `c` carries is that of its text.
pub open spec fn korean_of_text(c: Chunk) -> bool {
    match c.tokenized_korean_text {
        Some(s) => tokenize_korean_spec(c.text@) == Some(s@),
        None => tokenize_korean_spec(c.text@) is None,
    }
}

/// `c` is chunk `i` of those emitted for the run of blocks `bs`: the v1
/// chunk, with the Korean tokenization of its text, when it fits; else
/// piece `i` of its split.
pub open spec fn v2_piece_ok(
    c: Chunk,
    doc_id: Seq<char>,
    bs: Seq<Block>,
    i: int,
    budget: nat,
    cv: Seq<char>,
    ph: Seq<char>,
) -> bool {
    let t = chunk_text_spec(bs);
    if text_fits(t, budget) {
        chunk_fields_from(c, doc_id, bs, cv, ph) && korean_of_text(c)
    } else {
        seg_built_from(c, doc_id, bs, text_pieces_spec(t, budget)[i], i as nat, cv, ph)
    }
}

/// `chunks` are the post-pass output over the runs `groups` of `doc`.
pub open spec fn v2_chunks(
    chunks: Seq<Chunk>,
    doc: CanonicalDocument,
    groups: Seq<(int, int)>,
    budget: nat,
    cv: Seq<char>,
    ph: Seq<char>,
) -> bool {
    &&& chunks.len() == v2_offset(doc.blocks@, groups, budget, groups.len() as int)
    &&& forall|j: int, i: int|
        0 <= j < groups.len() && 0 <= i < v2_count(
            chunk_text_spec(run_blocks(doc.blocks@, groups[j])),
            budget,
        ) ==> v2_piece_ok(
            #[trigger] chunk_at(chunks, doc.blocks@, groups, budget, j, i),
            doc.doc_id@,
            run_blocks(doc.blocks@, groups[j]),
            i,
            budget,
            cv,
            ph,
        )
}

proof fn lemma_v2_offset_mono(blocks: Seq<Block>, groups: Seq<(int, int)>, budget: nat, a: int, b: int)
    requires
        0 <= a <= b,
    ensures
        v2_offset(blocks, groups, budget, a) <= v2_offset(blocks, groups, budget, b),
    decreases b - a,
{
    if a < b {
        lemma_v2_offset_mono(blocks, groups, budget, a, b - 1);
    }
}

/// The post-pass splits nothing when every `md-heading-v1` chunk is within
/// the budget: the output is then the v1 chunk list, chunk for chunk equal
/// in every field but the Korean tokenization, which is that of the
/// chunk's text.
pub proof fn lemma_v2_matches_v1_when_all_fit(
    chunks: Seq<Chunk>,
    doc: CanonicalDocument,
    groups: Seq<(int, int)>,
    budget: nat,
    cv: Seq<char>,
    ph: Seq<char>,
)
    requires
        v2_chunks(chunks, doc, groups, budget, cv, ph),
        forall|j: int|
            0 <= j < groups.len() ==> text_fits(
                #[trigger] chunk_text_spec(run_blocks(doc.blocks@, groups[j])),
                budget,
            ),
    ensures
        chunks.len() == groups.len(),
        forall|j: int|
            0 <= j < chunks.len() ==> chunk_fields_from(
                #[trigger] chunks[j],
                doc.doc_id@,
                doc.blocks@.subrange(groups[j].0, groups[j].1),
                cv,
                ph,
            ) && korean_of_text(chunks[j]),
{
    assert forall|j: int| 0 <= j <= groups.len() implies v2_offset(doc.blocks@, groups, budget, j)
        == j by {
        lemma_offsets_identity(doc.blocks@, groups, budget, j);
    }
    assert forall|j: int| 0 <= j < chunks.len() implies chunk_fields_from(
        #[trigger] chunks[j],
        doc.doc_id@,
        doc.blocks@.subrange(groups[j].0, groups[j].1),
        cv,
        ph,
    ) && korean_of_text(chunks[j]) by {
        assert(text_fits(chunk_text_spec(run_blocks(doc.blocks@, groups[j])), budget));
        assert(chunk_at(chunks, doc.blocks@, groups, budget, j, 0) == chunks[j]);
    }
}

proof fn lemma_offsets_identity(blocks: Seq<Block>, groups: Seq<(int, int)>, budget: nat, j: int)
    requires
        0 <= j <= groups.len(),
        forall|q: int|
            0 <= q < groups.len() ==> text_fits(
                #[trigger] chunk_text_spec(run_blocks(blocks, groups[q])),
                budget,
            ),
    ensures
        v2_offset(blocks, groups, budget, j) == j,
    decreases j,
{
    if j > 0 {
        lemma_offsets_identity(blocks, groups, budget, j - 1);
        assert(text_fits(chunk_text_spec(run_blocks(blocks, groups[j - 1])), budget));
    }
}

/// Token estimate of a text, computed from its characters.
pub(crate) fn text_token_estimate(chars: &Vec<char>) -> (res: u128)
    ensures
        res as nat == est_tokens(utf8_len(chars@)),
{
    let bytes = chars_byte_len(chars);
    if bytes % 3 == 0 {
        bytes / 3
    } else {
        bytes / 3 + 1
    }
}

/// `c` is piece `i` of the split of `orig`.
pub open spec fn piece_of(c: Chunk, orig: Chunk, piece: Seq<char>, i: nat, cv: Seq<char>, ph: Seq<char>) -> bool {
    &&& c.doc_id@ == orig.doc_id@
    &&& c.block_ids@ == orig.block_ids@
    &&& c.source_spans@ == orig.source_spans@
    &&& c.heading_path@ == orig.heading_path@
    &&& c.text@ == piece
    &&& c.token_estimate as nat == est_tokens(utf8_len(piece))
    &&& c.chunker_version@ == cv
    &&& c.policy_hash@ == ph
    &&& c.chunk_id@ == chunk_id_spec(orig.doc_id@, cv, strs(orig.block_ids@), ph + seg_suffix(i))
    &&& match c.tokenized_korean_text {
        Some(s) => tokenize_korean_spec(piece) == Some(s@),
        None => tokenize_korean_spec(piece) is None,
    }
}

/// The id hash `{ph}#seg{i}`.
fn seg_hash(ph: &str, i: usize) -> (res: String)
    ensures
        res@ == ph@ + seg_suffix(i as nat),
{
    let mut out = chars_of(ph);
    out.push('#');
    out.push('s');
    out.push('e');
    out.push('g');
    let ghost before = out@;
    push_decimal(&mut out, i as u64);
    let res = string_from_chars(&out);
    proof {
        assert(before =~= ph@ + seq!['#', 's', 'e', 'g']);
        assert(res@ =~= ph@ + seg_suffix(i as nat));
    }
    res
}

/// Replace an oversize chunk by one chunk per text piece.
fn split_oversize_chunk(chunk: &Chunk, budget: usize, cv: &str, ph: &str) -> (res: Vec<Chunk>)
    ensures
        res@.len() == text_pieces_spec(chunk.text@, budget as nat).len(),
        forall|i: int|
            0 <= i < res@.len() ==> piece_of(
                #[trigger] res@[i],
                *chunk,
                text_pieces_spec(chunk.text@, budget as nat)[i],
                i as nat,
                cv@,
                ph@,
            ),
        forall|i: int|
            0 <= i < res@.len() ==> piece_fits((#[trigger] res@[i]).text@, effective_budget(budget as nat)),
{
    let pieces = text_pieces(chunk.text.as_str(), budget);
    let ghost pv = strings_view(pieces@);
    let mut out: Vec<Chunk> = Vec::new();
    let mut i: usize = 0;
    while i < pieces.len()
        invariant
            i <= pieces@.len(),
            pv == strings_view(pieces@),
            pv == text_pieces_spec(chunk.text@, budget as nat),
            forall|k: int|
                0 <= k < pieces@.len() ==> piece_fits(
                    (#[trigger] pieces@[k])@,
                    effective_budget(budget as nat),
                ),
            out@.len() == i,
            forall|k: int|
                0 <= k < i ==> piece_of(#[trigger] out@[k], *chunk, pv[k], k as nat, cv@, ph@),
            forall|k: int|
                0 <= k < i ==> piece_fits((#[trigger] out@[k]).text@, effective_budget(budget as nat)),
        decreases pieces@.len() - i,
    {
        let text = pieces[i].clone();
        proof {
            assert(pv[i as int] == pieces@[i as int]@);
        }
        let id_hash = seg_hash(ph, i);
        let chunk_id = id_for_chunk(chunk.doc_id.as_str(), cv, &chunk.block_ids, id_hash.as_str());
        let chars = chars_of(text.as_str());
        let est = text_token_estimate(&chars);
        proof {
            crate::text::lemma_utf8_len_bounds(chars@);
            assert(piece_fits(chars@, effective_budget(budget as nat)));
            assert(est <= usize::MAX);
        }
        let korean = tokenize_korean_morphological(text.as_str());
        let c = Chunk {
            chunk_id,
            doc_id: chunk.doc_id.clone(),
            block_ids: clone_strings(&chunk.block_ids),
            text,
            heading_path: clone_strings(&chunk.heading_path),
            source_spans: clone_spans(&chunk.source_spans),
            token_estimate: est as usize,
            chunker_version: String::from_str(cv),
            policy_hash: String::from_str(ph),
            tokenized_korean_text: korean,
        };
        out.push(c);
        i = i + 1;
    }
    out
}

/// Heading-aware Markdown chunker with an oversize post-pass
/// (`md-heading-v2`); see the module documentation.
#[derive(Clone, Copy, Debug)]
pub struct MdHeadingV2Chunker {
    /// The split budget in estimated tokens (UTF-8 bytes / 3, rounded up).
    pub max_chunk_tokens: usize,
}

impl MdHeadingV2Chunker {
    pub fn chunker_version(&self) -> (res: String)
        ensures
            res@ == md_v2_label(),
    {
        String::from_str("md-heading-v2")
    }

    /// First 16 hex characters of the BLAKE3 digest of the policy's
    /// canonical JSON followed by the budget's little-endian bytes.
    pub fn policy_hash(&self, policy: &ChunkPolicy) -> (res: String)
        ensures
            res@ == policy_hash_spec(*policy, Some(self.max_chunk_tokens)),
            res@.len() == 16,
            forall|i: int| 0 <= i < 16 ==> is_lower_hex(#[trigger] res@[i]),
    {
        policy_hash_of(policy, Some(self.max_chunk_tokens))
    }

    /// Chunk a Markdown document. Always succeeds; every emitted chunk's
    /// text is within the budget (or is one character).
    pub fn chunk(&self, doc: &CanonicalDocument, policy: &ChunkPolicy) -> (res: Result<Vec<Chunk>, ChunkError>)
        requires
            doc_fits(*doc),
        ensures
            res matches Ok(chunks) && v2_chunks(
                chunks@,
                *doc,
                md_groups(doc.blocks@, policy.target_tokens as nat, policy.overlap_tokens as nat),
                self.max_chunk_tokens as nat,
                md_v2_label(),
                policy_hash_spec(*policy, Some(self.max_chunk_tokens)),
            ),
            res matches Ok(chunks) && forall|k: int|
                0 <= k < chunks@.len() ==> piece_fits(
                    (#[trigger] chunks@[k]).text@,
                    effective_budget(self.max_chunk_tokens as nat),
                ),
    {
        let ph = self.policy_hash(policy);
        let cv = self.chunker_version();
        let budget = self.max_chunk_tokens;
        let v1 = chunk_v1_equivalent(doc, policy, cv.as_str(), ph.as_str());
        let ghost groups = md_groups(doc.blocks@, policy.target_tokens as nat, policy.overlap_tokens as nat);
        let ghost blocks = doc.blocks@;
        let ghost b = budget as nat;
        let ghost eb = effective_budget(budget as nat);
        let mut out: Vec<Chunk> = Vec::new();
        let mut j: usize = 0;
        while j < v1.len()
            invariant
                j <= v1@.len(),
                chunks_from_groups(v1@, *doc, groups, cv@, ph@),
                blocks == doc.blocks@,
                b == budget as nat,
                eb == effective_budget(b),
                out@.len() == v2_offset(blocks, groups, b, j as int),
                forall|jj: int, i: int|
                    0 <= jj < j && 0 <= i < v2_count(chunk_text_spec(run_blocks(blocks, groups[jj])), b)
                        ==> v2_piece_ok(
                        #[trigger] chunk_at(out@, blocks, groups, b, jj, i),
                        doc.doc_id@,
                        run_blocks(blocks, groups[jj]),
                        i,
                        b,
                        cv@,
                        ph@,
                    ),
                forall|k: int| 0 <= k < out@.len() ==> piece_fits((#[trigger] out@[k]).text@, eb),
            decreases v1@.len() - j,
        {
            let c = &v1[j];
            let ghost bs = run_blocks(blocks, groups[j as int]);
            proof {
                assert(chunk_built_from(v1@[j as int], doc.doc_id@, bs, cv@, ph@));
            }
            let chars = chars_of(c.text.as_str());
            let est = text_token_estimate(&chars);
            let ghost start = out@.len();
            let ghost old_out = out@;
            if est <= budget as u128 {
                proof {
                    assert(piece_fits(c.text@, eb)) by {
                        crate::text::lemma_utf8_len_bounds(c.text@);
                    }
                }
                let mut fit = c.clone();
                fit.tokenized_korean_text = tokenize_korean_morphological(fit.text.as_str());
                out.push(fit);
                proof {
                    assert(chunk_at(out@, blocks, groups, b, j as int, 0) == out@[start as int]);
                }
            } else {
                let mut pieces = split_oversize_chunk(c, budget, cv.as_str(), ph.as_str());
                let ghost pv = pieces@;
                out.append(&mut pieces);
                proof {
                    assert forall|q: int| 0 <= q < out@.len() implies piece_fits((#[trigger] out@[q]).text@, eb) by {
                        if q >= start {
                            assert(out@[q] == pv[q - start]);
                        } else {
                            assert(out@[q] == old_out[q]);
                        }
                    }
                }
                proof {
                    assert forall|i: int| 0 <= i < v2_count(chunk_text_spec(bs), b) implies v2_piece_ok(
                        #[trigger] chunk_at(out@, blocks, groups, b, j as int, i),
                        doc.doc_id@,
                        bs,
                        i,
                        b,
                        cv@,
                        ph@,
                    ) by {
                        assert(out@[start + i] == pv[i]);
                    }
                }
            }
            proof {
                assert forall|jj: int, i: int|
                    0 <= jj < j + 1 && 0 <= i < v2_count(chunk_text_spec(run_blocks(blocks, groups[jj])), b)
                        implies v2_piece_ok(
                        #[trigger] chunk_at(out@, blocks, groups, b, jj, i),
                        doc.doc_id@,
                        run_blocks(blocks, groups[jj]),
                        i,
                        b,
                        cv@,
                        ph@,
                    ) by {
                    if jj < j {
                        lemma_v2_offset_mono(blocks, groups, b, jj + 1, j as int);
                        assert(chunk_at(out@, blocks, groups, b, jj, i) == chunk_at(old_out, blocks, groups, b, jj, i));
                    }
                }
            }
            j = j + 1;
        }
        Ok(out)
    }
}

} // verus!
