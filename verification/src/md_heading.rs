//! Heading-aware Markdown chunking (`md-heading-v1`) and its variant with
//! an oversize post-pass (`md-heading-v2`).
//!
//! Blocks are grouped into runs of consecutive blocks:
//!
//! 1. a heading ends the current run and starts a new one;
//! 2. code, table, image and audio blocks are each emitted alone;
//! 3. paragraphs, lists and quotes accumulate until the next one would
//!    push the run's token estimate over `target_tokens` (and the run holds
//!    something besides its heading); the run is then emitted and the next
//!    run is seeded with trailing blocks of the previous one worth about
//!    `min(overlap_tokens, target_tokens / 2)` tokens.
//!
//! Each run becomes one chunk whose text is the blocks' texts joined by a
//! blank line.

use vstd::prelude::*;
use crate::hashing::{chunk_id_spec, id_for_chunk, is_lower_hex, policy_hash_of, policy_hash_spec};
use crate::model::{Block, CanonicalDocument, Chunk, ChunkPolicy, SourceSpan, clone_strings};
use crate::oversize::est_tokens;
use crate::render::{block_tokens, block_tokens_of, is_media, render_chars, render_spec};
use crate::text::{
    chars_byte_len, join_with, lemma_utf8_len_concat, string_from_chars, utf8_len,
};

verus! {

/// A block that may be glued to its neighbours.
pub open spec fn is_soft(b: Block) -> bool {
    b is Paragraph || b is List || b is Quote
}

/// Sum of the token estimates of blocks `a..b`.
pub open spec fn sum_tokens(blocks: Seq<Block>, a: int, b: int) -> nat
    decreases b - a,
{
    if b <= a {
        0
    } else {
        sum_tokens(blocks, a, b - 1) + block_tokens(blocks[b - 1])
    }
}

/// The run `lo..hi` holds a block that is not a heading.
pub open spec fn has_non_heading(blocks: Seq<Block>, lo: int, hi: int) -> bool {
    exists|k: int| lo <= k < hi && !(#[trigger] blocks[k] is Heading)
}

/// Start of the overlap seed taken from the end `k` of a run starting at
/// `lo`: walking backwards, blocks are taken while the remaining budget
/// allows (the first one always), stopping at a heading, when a block does
/// not fit, or when the budget is spent.
pub open spec fn seed_walk(blocks: Seq<Block>, lo: int, k: int, budget: nat, taken: bool) -> int
    decreases k - lo,
{
    if k <= lo {
        k
    } else {
        let b = blocks[k - 1];
        if b is Heading {
            k
        } else {
            let est = block_tokens(b);
            if est > budget && taken {
                k
            } else if est >= budget {
                k - 1
            } else {
                seed_walk(blocks, lo, k - 1, (budget - est) as nat, true)
            }
        }
    }
}

/// The seed budget: `min(overlap, target / 2)`.
pub open spec fn seed_budget(overlap: nat, target: nat) -> nat {
    if overlap <= target / 2 {
        overlap
    } else {
        target / 2
    }
}

/// Start of the overlap seed for the run `lo..hi` (the seed is `start..hi`).
pub open spec fn overlap_seed(blocks: Seq<Block>, lo: int, hi: int, overlap: nat, target: nat) -> int {
    let sb = seed_budget(overlap, target);
    if sb == 0 {
        hi
    } else {
        seed_walk(blocks, lo, hi, sb, false)
    }
}

/// The grouping state: the emitted runs, the current run `lo..hi`, and its
/// token estimate.
pub type MdState = (Seq<(int, int)>, int, int, nat);

/// One grouping step: block `i` arrives in state `st`.
pub open spec fn md_step(blocks: Seq<Block>, st: MdState, i: int, target: nat, overlap: nat) -> MdState {
    let (groups, lo, hi, tokens) = st;
    let b = blocks[i];
    let flushed = if lo < hi {
        groups.push((lo, hi))
    } else {
        groups
    };
    if b is Heading {
        (flushed, i, i + 1, block_tokens(b))
    } else if !is_soft(b) {
        (flushed.push((i, i + 1)), i + 1, i + 1, 0)
    } else {
        let next = block_tokens(b);
        if tokens + next > target && has_non_heading(blocks, lo, hi) {
            let s = overlap_seed(blocks, lo, hi, overlap, target);
            (groups.push((lo, hi)), s, i + 1, sum_tokens(blocks, s, hi) + next)
        } else {
            (groups, lo, i + 1, tokens + next)
        }
    }
}

/// The grouping state after the first `n` blocks.
pub open spec fn md_fold(blocks: Seq<Block>, n: int, target: nat, overlap: nat) -> MdState
    decreases n,
{
    if n <= 0 {
        (seq![], 0, 0, 0)
    } else {
        md_step(blocks, md_fold(blocks, n - 1, target, overlap), n - 1, target, overlap)
    }
}

/// The runs of blocks (`start..end` index ranges) the Markdown chunkers
/// turn into chunks, in order.
pub open spec fn md_groups(blocks: Seq<Block>, target: nat, overlap: nat) -> Seq<(int, int)> {
    let (groups, lo, hi, _) = md_fold(blocks, blocks.len() as int, target, overlap);
    if lo < hi {
        groups.push((lo, hi))
    } else {
        groups
    }
}

/// The blank-line separator between block texts.
pub open spec fn blank_line() -> Seq<char> {
    seq!['\n', '\n']
}

/// The text of a chunk made of `bs`.
pub open spec fn chunk_text_spec(bs: Seq<Block>) -> Seq<char> {
    join_with(bs.map_values(|b: Block| render_spec(b)), blank_line())
}

pub open spec fn strs(v: Seq<String>) -> Seq<Seq<char>> {
    v.map_values(|s: String| s@)
}

/// The heading path of a chunk led by `first`: a leading heading adds its
/// own title to its parents' path.
pub open spec fn heading_path_spec(first: Block) -> Seq<Seq<char>> {
    match first {
        Block::Heading(h) => strs(h.common.heading_path@).push(h.text@),
        _ => strs(first.common_spec().heading_path@),
    }
}

pub open spec fn all_media(bs: Seq<Block>) -> bool {
    forall|k: int| 0 <= k < bs.len() ==> is_media(#[trigger] bs[k])
}

pub open spec fn block_ids_spec(bs: Seq<Block>) -> Seq<Seq<char>> {
    bs.map_values(|b: Block| b.common_spec().block_id@)
}

pub open spec fn spans_spec(bs: Seq<Block>) -> Seq<SourceSpan> {
    bs.map_values(|b: Block| b.common_spec().source_span)
}

/// `c` is the chunk made of blocks `bs` of document `doc_id` by chunker
/// version `cv` under policy hash `ph`, with no Korean tokenization.
pub open spec fn chunk_built_from(
    c: Chunk,
    doc_id: Seq<char>,
    bs: Seq<Block>,
    cv: Seq<char>,
    ph: Seq<char>,
) -> bool {
    &&& chunk_fields_from(c, doc_id, bs, cv, ph)
    &&& c.tokenized_korean_text is None
}

/// Every field of `c` but its Korean tokenization is that of the chunk made
/// of blocks `bs` of document `doc_id` by chunker version `cv` under policy
/// hash `ph`.
pub open spec fn chunk_fields_from(
    c: Chunk,
    doc_id: Seq<char>,
    bs: Seq<Block>,
    cv: Seq<char>,
    ph: Seq<char>,
) -> bool {
    &&& c.doc_id@ == doc_id
    &&& strs(c.block_ids@) == block_ids_spec(bs)
    &&& c.source_spans@ == spans_spec(bs)
    &&& strs(c.heading_path@) == heading_path_spec(bs[0])
    &&& c.text@ == chunk_text_spec(bs)
    &&& c.token_estimate as nat == (if all_media(bs) {
        0
    } else {
        est_tokens(utf8_len(c.text@))
    })
    &&& c.chunker_version@ == cv
    &&& c.policy_hash@ == ph
    &&& c.chunk_id@ == chunk_id_spec(doc_id, cv, block_ids_spec(bs), ph)
}

/// UTF-8 size of all block texts plus a separator allowance per block.
pub open spec fn doc_text_size(blocks: Seq<Block>, n: int) -> nat
    decreases n,
{
    if n <= 0 {
        0
    } else {
        doc_text_size(blocks, n - 1) + utf8_len(render_spec(blocks[n - 1])) + 2
    }
}

/// The document's text fits in memory addressable by `usize`.
pub open spec fn doc_fits(doc: CanonicalDocument) -> bool {
    doc_text_size(doc.blocks@, doc.blocks@.len() as int) <= usize::MAX
}

/// The chunks of `doc` made by `cv` under policy hash `ph` from the runs
/// `groups`.
pub open spec fn chunks_from_groups(
    chunks: Seq<Chunk>,
    doc: CanonicalDocument,
    groups: Seq<(int, int)>,
    cv: Seq<char>,
    ph: Seq<char>,
) -> bool {
    &&& chunks.len() == groups.len()
    &&& forall|j: int|
        0 <= j < chunks.len() ==> chunk_built_from(
            #[trigger] chunks[j],
            doc.doc_id@,
            doc.blocks@.subrange(groups[j].0, groups[j].1),
            cv,
            ph,
        )
}

// ---------------------------------------------------------------------------
// Size lemmas

proof fn lemma_doc_text_size_mono(blocks: Seq<Block>, a: int, b: int)
    requires
        0 <= a <= b,
    ensures
        doc_text_size(blocks, a) <= doc_text_size(blocks, b),
    decreases b - a,
{
    if a < b {
        lemma_doc_text_size_mono(blocks, a, b - 1);
    }
}

/// Bytes of the texts of blocks `a..b` plus two per block.
pub open spec fn range_size(blocks: Seq<Block>, a: int, b: int) -> nat
    decreases b - a,
{
    if b <= a {
        0
    } else {
        range_size(blocks, a, b - 1) + utf8_len(render_spec(blocks[b - 1])) + 2
    }
}

proof fn lemma_range_size_le(blocks: Seq<Block>, a: int, b: int)
    requires
        0 <= a <= b,
    ensures
        range_size(blocks, a, b) + doc_text_size(blocks, a) == doc_text_size(blocks, b),
    decreases b - a,
{
    if a < b {
        lemma_range_size_le(blocks, a, b - 1);
    }
}

proof fn lemma_sum_tokens_le_size(blocks: Seq<Block>, a: int, b: int)
    requires
        a <= b,
    ensures
        sum_tokens(blocks, a, b) <= range_size(blocks, a, b),
    decreases b - a,
{
    if a < b {
        lemma_sum_tokens_le_size(blocks, a, b - 1);
        let t = utf8_len(render_spec(blocks[b - 1]));
        assert(est_tokens(t) <= t);
    }
}

proof fn lemma_sum_tokens_split(blocks: Seq<Block>, a: int, m: int, b: int)
    requires
        a <= m <= b,
    ensures
        sum_tokens(blocks, a, b) == sum_tokens(blocks, a, m) + sum_tokens(blocks, m, b),
    decreases b - m,
{
    if m < b {
        lemma_sum_tokens_split(blocks, a, m, b - 1);
    }
}

proof fn lemma_range_size_split(blocks: Seq<Block>, a: int, m: int, b: int)
    requires
        a <= m <= b,
    ensures
        range_size(blocks, a, b) == range_size(blocks, a, m) + range_size(blocks, m, b),
    decreases b - m,
{
    if m < b {
        lemma_range_size_split(blocks, a, m, b - 1);
    }
}

/// The chunk text of the run `a..b` is at most the run's size.
proof fn lemma_chunk_text_size(blocks: Seq<Block>, a: int, b: int)
    requires
        0 <= a < b <= blocks.len(),
    ensures
        utf8_len(chunk_text_spec(blocks.subrange(a, b))) + 2 <= range_size(blocks, a, b),
    decreases b - a,
{
    let bs = blocks.subrange(a, b);
    let parts = bs.map_values(|x: Block| render_spec(x));
    if b - a == 1 {
        assert(parts.len() == 1);
        assert(join_with(parts, blank_line()) == parts[0]);
        assert(range_size(blocks, a, a) == 0);
    } else {
        lemma_chunk_text_size(blocks, a, b - 1);
        let bs1 = blocks.subrange(a, b - 1);
        let parts1 = bs1.map_values(|x: Block| render_spec(x));
        assert(parts.drop_last() =~= parts1);
        assert(parts.last() == render_spec(blocks[b - 1]));
        assert(join_with(parts, blank_line()) == join_with(parts1, blank_line()) + blank_line()
            + parts.last());
        lemma_utf8_len_concat(join_with(parts1, blank_line()), blank_line());
        lemma_utf8_len_concat(join_with(parts1, blank_line()) + blank_line(), parts.last());
        assert(utf8_len(blank_line()) == 2) by {
            lemma_utf8_len_concat(seq!['\n'], seq!['\n']);
            assert(seq!['\n'] + seq!['\n'] =~= blank_line());
            crate::text::lemma_utf8_len_single('\n');
        }
    }
}

// ---------------------------------------------------------------------------
// Grouping laws

/// The runs cover `0..n` in order without gaps: each run is non-empty and
/// within bounds; only its first block may be a heading or a code, table,
/// image or audio block, and such a block stands alone unless it is a
/// heading; runs start at block 0, their starts never decrease, their ends
/// strictly increase, and each run starts no later than the previous ends
/// (consecutive runs share at most the overlap seed).
#[verifier::opaque]
pub open spec fn groups_wf(blocks: Seq<Block>, g: Seq<(int, int)>, n: int) -> bool {
    &&& forall|j: int| 0 <= j < g.len() ==> 0 <= (#[trigger] g[j]).0 < g[j].1 <= n
    &&& forall|j: int, k: int|
        #![trigger blocks[k], g[j]]
        0 <= j < g.len() && g[j].0 < k < g[j].1 ==> is_soft(blocks[k])
    &&& forall|j: int|
        0 <= j < g.len() && (#[trigger] g[j]).1 > g[j].0 + 1 ==> (blocks[g[j].0] is Heading
            || is_soft(blocks[g[j].0]))
    &&& g.len() > 0 ==> g[0].0 == 0
    &&& forall|j: int|
        0 <= j < g.len() - 1 ==> (#[trigger] g[j]).0 <= g[j + 1].0 && g[j].1 < g[j + 1].1 && g[j
            + 1].0 <= g[j].1
}

/// The state invariant of the grouping fold after `n` blocks.
pub open spec fn fold_inv(blocks: Seq<Block>, n: int, st: (Seq<(int, int)>, int, int, nat)) -> bool {
    let (g, lo, hi, _) = st;
    &&& hi == n
    &&& 0 <= lo <= hi
    &&& groups_wf(blocks, g, n)
    &&& (g.len() > 0 ==> g.last().0 <= lo <= g.last().1 <= hi && (lo < hi ==> g.last().1 < hi))
    &&& (g.len() == 0 ==> lo == 0)
    &&& (lo == hi ==> (n == 0 || (g.len() > 0 && g.last().1 == n)))
    &&& (forall|k: int| lo < k < hi ==> is_soft(#[trigger] blocks[k]))
    &&& (lo < hi ==> (blocks[lo] is Heading || is_soft(blocks[lo])))
}

proof fn lemma_seed_walk_bounds(blocks: Seq<Block>, lo: int, k: int, budget: nat, taken: bool)
    requires
        lo <= k,
    ensures
        lo <= seed_walk(blocks, lo, k, budget, taken) <= k,
    decreases k - lo,
{
    if k > lo {
        let b = blocks[k - 1];
        if !(b is Heading) {
            let est = block_tokens(b);
            if !(est > budget && taken) && est < budget {
                lemma_seed_walk_bounds(blocks, lo, k - 1, (budget - est) as nat, true);
            }
        }
    }
}

proof fn lemma_push_group_wf(blocks: Seq<Block>, g: Seq<(int, int)>, n: int, m: int, lo: int, hi: int)
    requires
        groups_wf(blocks, g, n),
        n <= m,
        0 <= lo < hi <= m,
        forall|k: int| lo < k < hi ==> is_soft(#[trigger] blocks[k]),
        hi > lo + 1 ==> (blocks[lo] is Heading || is_soft(blocks[lo])),
        g.len() > 0 ==> g.last().0 <= lo && g.last().1 < hi && lo <= g.last().1,
        g.len() == 0 ==> lo == 0,
    ensures
        groups_wf(blocks, g.push((lo, hi)), m),
{
    reveal(groups_wf);
    let g2 = g.push((lo, hi));
    assert forall|j: int| 0 <= j < g2.len() implies 0 <= (#[trigger] g2[j]).0 < g2[j].1 <= m by {
        if j < g.len() {
            assert(g2[j] == g[j]);
        }
    }
    assert forall|j: int, k: int|
        #![trigger blocks[k], g2[j]]
        0 <= j < g2.len() && g2[j].0 < k < g2[j].1 implies is_soft(blocks[k]) by {
        if j < g.len() {
            assert(g2[j] == g[j]);
        }
    }
    assert forall|j: int| 0 <= j < g2.len() && (#[trigger] g2[j]).1 > g2[j].0 + 1 implies (
    blocks[g2[j].0] is Heading || is_soft(blocks[g2[j].0])) by {
        if j < g.len() {
            assert(g2[j] == g[j]);
        }
    }
    assert forall|j: int| 0 <= j < g2.len() - 1 implies (#[trigger] g2[j]).0 <= g2[j + 1].0
        && g2[j].1 < g2[j + 1].1 && g2[j + 1].0 <= g2[j].1 by {
        assert(g2[j] == g[j]);
        if j + 1 < g.len() {
            assert(g2[j + 1] == g[j + 1]);
        } else {
            assert(g[j] == g.last());
        }
    }
}

proof fn lemma_groups_wf_grow(blocks: Seq<Block>, g: Seq<(int, int)>, n: int, m: int)
    requires
        groups_wf(blocks, g, n),
        n <= m,
    ensures
        groups_wf(blocks, g, m),
{
    reveal(groups_wf);
}

proof fn lemma_flush_inv(blocks: Seq<Block>, n: int, st: MdState)
    requires
        n >= 1,
        fold_inv(blocks, n - 1, st),
    ensures
        ({
            let (g, lo, hi, _) = st;
            let flushed = if lo < hi {
                g.push((lo, hi))
            } else {
                g
            };
            &&& groups_wf(blocks, flushed, n)
            &&& (flushed.len() > 0 ==> flushed.last().1 == n - 1)
            &&& (flushed.len() == 0 ==> n - 1 == 0)
        }),
{
    let (g, lo, hi, _) = st;
    lemma_groups_wf_grow(blocks, g, n - 1, n);
    if lo < hi {
        lemma_push_group_wf(blocks, g, n - 1, n, lo, hi);
        assert(g.push((lo, hi)).last() == (lo, hi));
    }
}

proof fn lemma_step_heading(blocks: Seq<Block>, n: int, st: MdState, target: nat, overlap: nat)
    requires
        1 <= n <= blocks.len(),
        fold_inv(blocks, n - 1, st),
        blocks[n - 1] is Heading,
    ensures
        fold_inv(blocks, n, md_step(blocks, st, n - 1, target, overlap)),
{
    lemma_flush_inv(blocks, n, st);
    let (g, lo, hi, _) = st;
    let i = n - 1;
    let flushed = if lo < hi {
        g.push((lo, hi))
    } else {
        g
    };
    let ns = (flushed, i, i + 1, block_tokens(blocks[i]));
    assert(md_step(blocks, st, i, target, overlap) == ns);
    assert(forall|k: int| i < k < i + 1 ==> is_soft(#[trigger] blocks[k]));
}

proof fn lemma_step_atomic(blocks: Seq<Block>, n: int, st: MdState, target: nat, overlap: nat)
    requires
        1 <= n <= blocks.len(),
        fold_inv(blocks, n - 1, st),
        !(blocks[n - 1] is Heading),
        !is_soft(blocks[n - 1]),
    ensures
        fold_inv(blocks, n, md_step(blocks, st, n - 1, target, overlap)),
{
    lemma_flush_inv(blocks, n, st);
    let (g, lo, hi, _) = st;
    let flushed = if lo < hi {
        g.push((lo, hi))
    } else {
        g
    };
    let i = n - 1;
    lemma_push_group_wf(blocks, flushed, n, n, i, i + 1);
    assert(flushed.push((i, i + 1)).last() == (i, i + 1));
}

proof fn lemma_step_soft(blocks: Seq<Block>, n: int, st: MdState, target: nat, overlap: nat)
    requires
        1 <= n <= blocks.len(),
        fold_inv(blocks, n - 1, st),
        is_soft(blocks[n - 1]),
    ensures
        fold_inv(blocks, n, md_step(blocks, st, n - 1, target, overlap)),
{
    let (g, lo, hi, tokens) = st;
    let i = n - 1;
    let b = blocks[i];
    assert(!(b is Heading));
    let next = block_tokens(b);
    lemma_groups_wf_grow(blocks, g, n - 1, n);
    if tokens + next > target && has_non_heading(blocks, lo, hi) {
        let s = overlap_seed(blocks, lo, hi, overlap, target);
        if seed_budget(overlap, target) != 0 {
            lemma_seed_walk_bounds(blocks, lo, hi, seed_budget(overlap, target), false);
        }
        assert(lo <= s <= hi);
        assert(lo < hi);
        lemma_push_group_wf(blocks, g, n - 1, n, lo, hi);
        let g2 = g.push((lo, hi));
        assert(g2.last() == (lo, hi));
        assert(forall|k: int| s < k < i + 1 ==> is_soft(#[trigger] blocks[k]));
    } else {
        assert(forall|k: int| lo < k < i + 1 ==> is_soft(#[trigger] blocks[k]));
    }
}

proof fn lemma_md_fold_inv(blocks: Seq<Block>, n: int, target: nat, overlap: nat)
    requires
        0 <= n <= blocks.len(),
    ensures
        fold_inv(blocks, n, md_fold(blocks, n, target, overlap)),
    decreases n,
{
    if n > 0 {
        lemma_md_fold_inv(blocks, n - 1, target, overlap);
        let st = md_fold(blocks, n - 1, target, overlap);
        let b = blocks[n - 1];
        if b is Heading {
            lemma_step_heading(blocks, n, st, target, overlap);
        } else if !is_soft(b) {
            lemma_step_atomic(blocks, n, st, target, overlap);
        } else {
            lemma_step_soft(blocks, n, st, target, overlap);
        }
    } else {
        reveal(groups_wf);
    }
}


/// The run that a heading at `a` starts reaches past `a + 1`: either it was
/// emitted already, or it is still the open run.
pub open spec fn heading_run_open(blocks: Seq<Block>, a: int, st: MdState) -> bool {
    let (g, lo, hi, _) = st;
    (exists|j: int| 0 <= j < g.len() && (#[trigger] g[j]).0 == a && g[j].1 > a + 1) || (lo == a && hi > a + 1)
}

proof fn lemma_heading_run_kept(blocks: Seq<Block>, a: int, n: int, target: nat, overlap: nat)
    requires
        0 <= a,
        a + 2 <= n <= blocks.len(),
        blocks[a] is Heading,
        is_soft(blocks[a + 1]),
    ensures
        heading_run_open(blocks, a, md_fold(blocks, n, target, overlap)),
    decreases n,
{
    if n == a + 2 {
        let st0 = md_fold(blocks, a, target, overlap);
        let st1 = md_fold(blocks, a + 1, target, overlap);
        assert(st1 == md_step(blocks, st0, a, target, overlap));
        assert(st1.1 == a && st1.2 == a + 1);
        assert(!has_non_heading(blocks, a, a + 1));
        let st2 = md_fold(blocks, a + 2, target, overlap);
        assert(st2 == md_step(blocks, st1, a + 1, target, overlap));
        assert(st2.1 == a && st2.2 == a + 2);
        assert(heading_run_open(blocks, a, st2));
    } else {
        lemma_heading_run_kept(blocks, a, n - 1, target, overlap);
        lemma_md_fold_inv(blocks, n - 1, target, overlap);
        let st = md_fold(blocks, n - 1, target, overlap);
        let (g, lo, hi, tokens) = st;
        let ns = md_step(blocks, st, n - 1, target, overlap);
        assert(md_fold(blocks, n, target, overlap) == ns);
        let flushed = if lo < hi {
            g.push((lo, hi))
        } else {
            g
        };
        let b = blocks[n - 1];
        let next = block_tokens(b);
        let cut = tokens + next > target && has_non_heading(blocks, lo, hi);
        if b is Heading {
            assert(ns.0 == flushed);
        } else if !is_soft(b) {
            assert(ns.0 == flushed.push((n - 1, n)));
        } else if cut {
            assert(ns.0 == g.push((lo, hi)));
        } else {
            assert(ns.0 == g && ns.1 == lo && ns.2 == n);
        }
        if exists|j: int| 0 <= j < g.len() && (#[trigger] g[j]).0 == a && g[j].1 > a + 1 {
            let j = choose|j: int| 0 <= j < g.len() && (#[trigger] g[j]).0 == a && g[j].1 > a + 1;
            assert(flushed[j] == g[j]);
            assert(flushed.push((n - 1, n))[j] == g[j]);
            assert(g.push((lo, hi))[j] == g[j]);
        } else {
            assert(lo == a && hi == n - 1);
            let gp = g.push((lo, hi));
            assert(gp[g.len() as int] == (a, n - 1));
            assert(gp.push((n - 1, n))[g.len() as int] == (a, n - 1));
        }
    }
}

/// A heading directly followed by a paragraph, list or quote is never cut
/// off on its own: some run starts at the heading and takes that block too.
pub proof fn lemma_heading_keeps_next(blocks: Seq<Block>, target: nat, overlap: nat, a: int)
    requires
        0 <= a,
        a + 1 < blocks.len(),
        blocks[a] is Heading,
        is_soft(blocks[a + 1]),
    ensures
        exists|j: int|
            0 <= j < md_groups(blocks, target, overlap).len() && (#[trigger] md_groups(blocks, target, overlap)[j]).0
                == a && md_groups(blocks, target, overlap)[j].1 > a + 1,
{
    let n = blocks.len() as int;
    lemma_heading_run_kept(blocks, a, n, target, overlap);
    let (g, lo, hi, _) = md_fold(blocks, n, target, overlap);
    let r = md_groups(blocks, target, overlap);
    if exists|j: int| 0 <= j < g.len() && (#[trigger] g[j]).0 == a && g[j].1 > a + 1 {
        let j = choose|j: int| 0 <= j < g.len() && (#[trigger] g[j]).0 == a && g[j].1 > a + 1;
        assert(g.push((lo, hi))[j] == g[j]);
        assert(r[j] == g[j]);
    } else {
        assert(r[g.len() as int] == (lo, hi));
    }
}
/// Laws of the Markdown grouping: the runs are well formed (see
/// [`groups_wf`]) and the last one ends at the last block, so every block
/// lies in some run; an empty document has no runs.
pub proof fn lemma_md_groups_laws(blocks: Seq<Block>, target: nat, overlap: nat)
    ensures
        groups_wf(blocks, md_groups(blocks, target, overlap), blocks.len() as int),
        blocks.len() > 0 ==> md_groups(blocks, target, overlap).len() > 0 && md_groups(
            blocks,
            target,
            overlap,
        ).last().1 == blocks.len(),
        blocks.len() == 0 ==> md_groups(blocks, target, overlap).len() == 0,
{
    let n = blocks.len() as int;
    lemma_md_fold_inv(blocks, n, target, overlap);
    let (g, lo, hi, _) = md_fold(blocks, n, target, overlap);
    if lo < hi {
        lemma_push_group_wf(blocks, g, n, n, lo, hi);
        assert(g.push((lo, hi)).last() == (lo, hi));
    }
}

// ---------------------------------------------------------------------------
// Executable chunking

/// Token estimate of every block, computed once.
fn block_token_table(blocks: &Vec<Block>) -> (res: Vec<u128>)
    ensures
        res@.len() == blocks@.len(),
        forall|k: int| 0 <= k < res@.len() ==> res@[k] as nat == block_tokens(#[trigger] blocks@[k]),
{
    let mut out: Vec<u128> = Vec::new();
    let mut i: usize = 0;
    while i < blocks.len()
        invariant
            i <= blocks.len(),
            out@.len() == i,
            forall|k: int| 0 <= k < i ==> out@[k] as nat == block_tokens(#[trigger] blocks@[k]),
        decreases blocks.len() - i,
    {
        out.push(block_tokens_of(&blocks[i]));
        i = i + 1;
    }
    out
}

/// Compute the seed start for the run `lo..hi` with budget `sb`, and the
/// token sum of the seed.
fn seed_of(blocks: &Vec<Block>, tok: &Vec<u128>, lo: usize, hi: usize, sb: u128) -> (res: (usize, u128))
    requires
        lo <= hi <= blocks@.len(),
        tok@.len() == blocks@.len(),
        forall|k: int| 0 <= k < tok@.len() ==> tok@[k] as nat == block_tokens(#[trigger] blocks@[k]),
        sb > 0,
        sum_tokens(blocks@, lo as int, hi as int) <= usize::MAX,
    ensures
        res.0 as int == seed_walk(blocks@, lo as int, hi as int, sb as nat, false),
        lo <= res.0 <= hi,
        res.1 as nat == sum_tokens(blocks@, res.0 as int, hi as int),
{
    let mut k: usize = hi;
    let mut budget: u128 = sb;
    let mut taken: bool = false;
    let mut sum: u128 = 0;
    loop
        invariant
            lo <= k <= hi <= blocks@.len(),
            tok@.len() == blocks@.len(),
            forall|j: int| 0 <= j < tok@.len() ==> tok@[j] as nat == block_tokens(#[trigger] blocks@[j]),
            seed_walk(blocks@, lo as int, k as int, budget as nat, taken) == seed_walk(
                blocks@,
                lo as int,
                hi as int,
                sb as nat,
                false,
            ),
            sum as nat == sum_tokens(blocks@, k as int, hi as int),
            sum_tokens(blocks@, lo as int, hi as int) <= usize::MAX,
            budget > 0,
        decreases k - lo,
    {
        proof {
            lemma_sum_tokens_split(blocks@, lo as int, k as int, hi as int);
        }
        if k <= lo {
            return (k, sum);
        }
        let is_heading = match &blocks[k - 1] {
            Block::Heading(_) => true,
            _ => false,
        };
        if is_heading {
            return (k, sum);
        }
        let est = tok[k - 1];
        proof {
            lemma_sum_tokens_split(blocks@, (k - 1) as int, k as int, hi as int);
            assert(sum_tokens(blocks@, (k - 1) as int, k as int) == block_tokens(blocks@[k - 1])) by {
                assert(sum_tokens(blocks@, (k - 1) as int, (k - 1) as int) == 0);
            }
            lemma_sum_tokens_split(blocks@, lo as int, (k - 1) as int, hi as int);
        }
        if est > budget && taken {
            return (k, sum);
        } else if est >= budget {
            return (k - 1, sum + est);
        } else {
            budget = budget - est;
            taken = true;
            sum = sum + est;
            k = k - 1;
        }
    }
}

/// The runs of `blocks` for a policy with these targets.
fn md_groups_exec(blocks: &Vec<Block>, target: usize, overlap: usize) -> (res: Vec<(usize, usize)>)
    requires
        doc_text_size(blocks@, blocks@.len() as int) <= usize::MAX,
    ensures
        res@.len() == md_groups(blocks@, target as nat, overlap as nat).len(),
        forall|j: int|
            0 <= j < res@.len() ==> (#[trigger] res@[j]).0 as int == md_groups(
                blocks@,
                target as nat,
                overlap as nat,
            )[j].0 && res@[j].1 as int == md_groups(blocks@, target as nat, overlap as nat)[j].1,
{
    let tok = block_token_table(blocks);
    let mut groups: Vec<(usize, usize)> = Vec::new();
    let mut lo: usize = 0;
    let mut hi: usize = 0;
    let mut tokens: u128 = 0;
    let ghost gview: Seq<(int, int)> = seq![];
    let sb: u128 = if overlap <= target / 2 {
        overlap as u128
    } else {
        (target / 2) as u128
    };
    let mut i: usize = 0;
    while i < blocks.len()
        invariant
            i <= blocks@.len(),
            tok@.len() == blocks@.len(),
            forall|k: int| 0 <= k < tok@.len() ==> tok@[k] as nat == block_tokens(#[trigger] blocks@[k]),
            doc_text_size(blocks@, blocks@.len() as int) <= usize::MAX,
            sb as nat == seed_budget(overlap as nat, target as nat),
            md_fold(blocks@, i as int, target as nat, overlap as nat) == (gview, lo as int, hi as int, tokens as nat),
            groups@.len() == gview.len(),
            forall|j: int| 0 <= j < groups@.len() ==> (#[trigger] groups@[j]).0 as int == gview[j].0
                && groups@[j].1 as int == gview[j].1,
            lo <= hi,
            hi == i,
            tokens as nat == sum_tokens(blocks@, lo as int, hi as int),
            forall|k: int| lo < k < hi ==> is_soft(#[trigger] blocks@[k]),
            lo < hi ==> (blocks@[lo as int] is Heading || is_soft(blocks@[lo as int])),
        decreases blocks@.len() - i,
    {
        let b = &blocks[i];
        let est = tok[i];
        proof {
            lemma_sum_tokens_le_size(blocks@, lo as int, hi as int);
            lemma_range_size_le(blocks@, lo as int, hi as int);
            lemma_doc_text_size_mono(blocks@, hi as int, blocks@.len() as int);
            lemma_sum_tokens_le_size(blocks@, i as int, i + 1);
            lemma_range_size_le(blocks@, i as int, i + 1);
            lemma_doc_text_size_mono(blocks@, i + 1, blocks@.len() as int);
            assert(sum_tokens(blocks@, i as int, i + 1) == block_tokens(blocks@[i as int])) by {
                assert(sum_tokens(blocks@, i as int, i as int) == 0);
            }
        }
        let kind: u8 = match b {
            Block::Heading(_) => 0,
            Block::Paragraph(_) | Block::List(_) | Block::Quote(_) => 2,
            _ => 1,
        };
        let ghost old_g = gview;
        if kind == 0 {
            if lo < hi {
                groups.push((lo, hi));
                proof {
                    gview = gview.push((lo as int, hi as int));
                }
            }
            lo = i;
            hi = i + 1;
            tokens = est;
        } else if kind == 1 {
            if lo < hi {
                groups.push((lo, hi));
                proof {
                    gview = gview.push((lo as int, hi as int));
                }
            }
            groups.push((i, i + 1));
            proof {
                gview = gview.push((i as int, i + 1));
            }
            lo = i + 1;
            hi = i + 1;
            tokens = 0;
        } else {
            // The run holds a non-heading block iff it has more than one
            // block, or one block that is not a heading.
            let non_heading = hi - lo >= 2 || (hi - lo == 1 && match &blocks[lo] {
                Block::Heading(_) => false,
                _ => true,
            });
            proof {
                if hi - lo >= 2 {
                    assert(!(blocks@[hi - 1] is Heading));
                    assert(has_non_heading(blocks@, lo as int, hi as int));
                } else if hi - lo == 1 && !(blocks@[lo as int] is Heading) {
                    assert(has_non_heading(blocks@, lo as int, hi as int));
                } else if has_non_heading(blocks@, lo as int, hi as int) {
                    let k = choose|k: int| lo <= k < hi && !(#[trigger] blocks@[k] is Heading);
                    assert(false);
                }
            }
            if tokens + est > target as u128 && non_heading {
                groups.push((lo, hi));
                proof {
                    gview = gview.push((lo as int, hi as int));
                }
                let (s, seed_sum) = if sb == 0 {
                    (hi, 0u128)
                } else {
                    seed_of(blocks, &tok, lo, hi, sb)
                };
                proof {
                    lemma_sum_tokens_split(blocks@, s as int, hi as int, i + 1);
                    lemma_sum_tokens_split(blocks@, lo as int, s as int, hi as int);
                }
                lo = s;
                hi = i + 1;
                tokens = seed_sum + est;
            } else {
                proof {
                    lemma_sum_tokens_split(blocks@, lo as int, hi as int, i + 1);
                }
                hi = i + 1;
                tokens = tokens + est;
            }
        }
        proof {
            assert(md_fold(blocks@, i + 1, target as nat, overlap as nat) == (gview, lo as int, hi as int, tokens as nat));
            assert forall|j: int| 0 <= j < groups@.len() implies (#[trigger] groups@[j]).0 as int
                == gview[j].0 && groups@[j].1 as int == gview[j].1 by {
                if j < old_g.len() {
                    assert(gview[j] == old_g[j]);
                }
            }
        }
        i = i + 1;
    }
    let ghost final_g = gview;
    if lo < hi {
        groups.push((lo, hi));
        proof {
            gview = gview.push((lo as int, hi as int));
            assert forall|j: int| 0 <= j < groups@.len() implies (#[trigger] groups@[j]).0 as int
                == gview[j].0 && groups@[j].1 as int == gview[j].1 by {
                if j < final_g.len() {
                    assert(gview[j] == final_g[j]);
                }
            }
        }
    }
    proof {
        assert(md_groups(blocks@, target as nat, overlap as nat) == gview);
    }
    groups
}


/// Build the chunk made of blocks `a..b` of `doc`.
pub fn build_chunk(doc: &CanonicalDocument, a: usize, b: usize, cv: &str, ph: &str) -> (res: Chunk)
    requires
        a < b <= doc.blocks@.len(),
        range_size(doc.blocks@, a as int, b as int) <= usize::MAX,
    ensures
        chunk_built_from(res, doc.doc_id@, doc.blocks@.subrange(a as int, b as int), cv@, ph@),
{
    let blocks = &doc.blocks;
    let ghost bs = blocks@.subrange(a as int, b as int);
    let mut block_ids: Vec<String> = Vec::new();
    let mut spans: Vec<SourceSpan> = Vec::new();
    let mut text: Vec<char> = Vec::new();
    let mut media_only: bool = true;
    let mut k: usize = a;
    while k < b
        invariant
            a <= k <= b <= blocks@.len(),
            bs == blocks@.subrange(a as int, b as int),
            strs(block_ids@) == block_ids_spec(blocks@.subrange(a as int, k as int)),
            spans@ == spans_spec(blocks@.subrange(a as int, k as int)),
            k > a ==> text@ == chunk_text_spec(blocks@.subrange(a as int, k as int)),
            k == a ==> text@.len() == 0,
            media_only == all_media(blocks@.subrange(a as int, k as int)),
        decreases b - k,
    {
        let blk = &blocks[k];
        let ghost pre = blocks@.subrange(a as int, k as int);
        let ghost cur = blocks@.subrange(a as int, k + 1);
        proof {
            assert(cur.drop_last() =~= pre);
            assert(cur.last() == blocks@[k as int]);
        }
        let common = blk.common();
        let ghost old_ids = block_ids@;
        block_ids.push(common.block_id.clone());
        proof {
            assert(strs(block_ids@) =~= strs(old_ids).push(common.block_id@));
            assert(block_ids_spec(cur) =~= block_ids_spec(pre).push(blocks@[k as int].common_spec().block_id@));
        }
        let ghost old_spans = spans@;
        spans.push(common.source_span.clone());
        proof {
            assert(spans_spec(cur) =~= spans_spec(pre).push(blocks@[k as int].common_spec().source_span));
        }
        let part = render_chars(blk);
        let ghost before = text@;
        if k > a {
            text.push('\n');
            text.push('\n');
        }
        let mut j: usize = 0;
        let ghost mid = text@;
        while j < part.len()
            invariant
                j <= part@.len(),
                text@ == mid + part@.take(j as int),
            decreases part@.len() - j,
        {
            text.push(part[j]);
            proof {
                assert(part@.take(j + 1) =~= part@.take(j as int).push(part@[j as int]));
            }
            j = j + 1;
        }
        proof {
            assert(part@.take(part@.len() as int) =~= part@);
            let parts_cur = cur.map_values(|x: Block| render_spec(x));
            let parts_pre = pre.map_values(|x: Block| render_spec(x));
            assert(parts_cur.drop_last() =~= parts_pre);
            assert(parts_cur.last() == part@);
            if k > a {
                assert(mid =~= before + blank_line());
                assert(text@ =~= join_with(parts_pre, blank_line()) + blank_line() + part@);
            } else {
                assert(parts_cur.len() == 1);
                assert(text@ =~= part@);
            }
        }
        let is_media_block = match blk {
            Block::ImageRef(_) | Block::AudioRef(_) => true,
            _ => false,
        };
        media_only = media_only && is_media_block;
        proof {
            assert(all_media(cur) == (all_media(pre) && is_media(blocks@[k as int]))) by {
                if all_media(pre) && is_media(blocks@[k as int]) {
                    assert forall|q: int| 0 <= q < cur.len() implies is_media(#[trigger] cur[q]) by {
                        if q < pre.len() {
                            assert(cur[q] == pre[q]);
                        }
                    }
                }
                if all_media(cur) {
                    assert forall|q: int| 0 <= q < pre.len() implies is_media(#[trigger] pre[q]) by {
                        assert(cur[q] == pre[q]);
                    }
                    assert(is_media(cur[cur.len() - 1]));
                }
            }
        }
        k = k + 1;
    }
    let heading_path = match &blocks[a] {
        Block::Heading(h) => {
            let mut p = clone_strings(&h.common.heading_path);
            let ghost hp = p@;
            p.push(h.text.clone());
            proof {
                assert(strs(p@) =~= strs(hp).push(h.text@));
            }
            p
        },
        other => clone_strings(&other.common().heading_path),
    };
    proof {
        assert(bs[0] == blocks@[a as int]);
        lemma_chunk_text_size(blocks@, a as int, b as int);
    }
    let bytes = chars_byte_len(&text);
    let token_estimate: usize = if media_only {
        0
    } else if bytes % 3 == 0 {
        (bytes / 3) as usize
    } else {
        (bytes / 3 + 1) as usize
    };
    let chunk_id = id_for_chunk(doc.doc_id.as_str(), cv, &block_ids, ph);
    let text_string = string_from_chars(&text);
    Chunk {
        chunk_id,
        doc_id: doc.doc_id.clone(),
        block_ids,
        text: text_string,
        heading_path,
        source_spans: spans,
        token_estimate,
        chunker_version: String::from_str(cv),
        policy_hash: String::from_str(ph),
        tokenized_korean_text: None,
    }
}


/// The chunks of the runs `groups` of `doc`, built in order.
fn chunks_of_groups(
    doc: &CanonicalDocument,
    groups: &Vec<(usize, usize)>,
    gspec: Ghost<Seq<(int, int)>>,
    cv: &str,
    ph: &str,
) -> (res: Vec<Chunk>)
    requires
        doc_fits(*doc),
        groups@.len() == gspec@.len(),
        forall|j: int|
            0 <= j < groups@.len() ==> (#[trigger] groups@[j]).0 as int == gspec@[j].0
                && groups@[j].1 as int == gspec@[j].1,
        groups_wf(doc.blocks@, gspec@, doc.blocks@.len() as int),
    ensures
        chunks_from_groups(res@, *doc, gspec@, cv@, ph@),
{
    let mut out: Vec<Chunk> = Vec::new();
    let mut j: usize = 0;
    while j < groups.len()
        invariant
            j <= groups@.len(),
            doc_fits(*doc),
            groups@.len() == gspec@.len(),
            forall|q: int|
                0 <= q < groups@.len() ==> (#[trigger] groups@[q]).0 as int == gspec@[q].0
                    && groups@[q].1 as int == gspec@[q].1,
            groups_wf(doc.blocks@, gspec@, doc.blocks@.len() as int),
            out@.len() == j,
            forall|q: int|
                0 <= q < j ==> chunk_built_from(
                    #[trigger] out@[q],
                    doc.doc_id@,
                    doc.blocks@.subrange(gspec@[q].0, gspec@[q].1),
                    cv@,
                    ph@,
                ),
        decreases groups@.len() - j,
    {
        let (a, b) = groups[j];
        proof {
            reveal(groups_wf);
            assert(0 <= gspec@[j as int].0 < gspec@[j as int].1 <= doc.blocks@.len());
            lemma_range_size_le(doc.blocks@, a as int, b as int);
            lemma_doc_text_size_mono(doc.blocks@, b as int, doc.blocks@.len() as int);
        }
        let c = build_chunk(doc, a, b, cv, ph);
        out.push(c);
        j = j + 1;
    }
    out
}

/// The `md-heading-v1` chunks of `doc` (see the module documentation).
pub(crate) fn chunk_v1_equivalent(doc: &CanonicalDocument, policy: &ChunkPolicy, cv: &str, ph: &str) -> (res: Vec<Chunk>)
    requires
        doc_fits(*doc),
    ensures
        chunks_from_groups(
            res@,
            *doc,
            md_groups(doc.blocks@, policy.target_tokens as nat, policy.overlap_tokens as nat),
            cv@,
            ph@,
        ),
{
    let groups = md_groups_exec(&doc.blocks, policy.target_tokens, policy.overlap_tokens);
    let ghost gspec = md_groups(doc.blocks@, policy.target_tokens as nat, policy.overlap_tokens as nat);
    proof {
        lemma_md_groups_laws(doc.blocks@, policy.target_tokens as nat, policy.overlap_tokens as nat);
    }
    chunks_of_groups(doc, &groups, Ghost(gspec), cv, ph)
}

/// Version label of [`MdHeadingV1Chunker`].
pub open spec fn md_v1_label() -> Seq<char> {
    "md-heading-v1"@
}

/// Heading-aware Markdown chunker (`md-heading-v1`).
///
/// Chunks never span a heading (a heading starts its chunk), code and
/// tables are never split and stand alone, image and audio blocks stand
/// alone with a token estimate of 0, long sections split by paragraph with
/// paragraph-level overlap, and each chunk records every contributing
/// block's id and span in document order.
#[derive(Clone, Copy, Debug, Default)]
pub struct MdHeadingV1Chunker;

impl MdHeadingV1Chunker {
    pub fn chunker_version(&self) -> (res: String)
        ensures
            res@ == md_v1_label(),
    {
        String::from_str("md-heading-v1")
    }

    /// First 16 hex characters of the BLAKE3 digest of the policy's
    /// canonical JSON.
    pub fn policy_hash(&self, policy: &ChunkPolicy) -> (res: String)
        ensures
            res@ == policy_hash_spec(*policy, None),
            res@.len() == 16,
            forall|i: int| 0 <= i < 16 ==> is_lower_hex(#[trigger] res@[i]),
    {
        policy_hash_of(policy, None)
    }

    /// Chunk a Markdown document. Always succeeds.
    pub fn chunk(&self, doc: &CanonicalDocument, policy: &ChunkPolicy) -> (res: Result<Vec<Chunk>, crate::model::ChunkError>)
        requires
            doc_fits(*doc),
        ensures
            res matches Ok(chunks) && chunks_from_groups(
                chunks@,
                *doc,
                md_groups(doc.blocks@, policy.target_tokens as nat, policy.overlap_tokens as nat),
                md_v1_label(),
                policy_hash_spec(*policy, None),
            ),
    {
        let ph = self.policy_hash(policy);
        let cv = self.chunker_version();
        Ok(chunk_v1_equivalent(doc, policy, cv.as_str(), ph.as_str()))
    }
}

} // verus!
