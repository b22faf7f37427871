//! `code-ts-ast-v1`: a TypeScript document parsed into one code block per
//! semantic unit (each with a code span) maps to chunks one to one. A unit
//! spanning more than 200 lines is cut into parts of at most 200 lines,
//! preferring to end a part after a blank line among its last 40 lines;
//! part `i` of `N` carries the symbol `<symbol> [part i/N]`.

use vstd::prelude::*;
use crate::flatten::{grouped, lemma_grouped_append};
use crate::hashing::{decimal, is_lower_hex, policy_hash_of, policy_hash_spec, push_decimal};
use crate::korean::{all_ws, is_blank};
use crate::md_heading::strs;
use crate::model::{Block, CanonicalDocument, Chunk, ChunkError, ChunkPolicy, SourceSpan, clone_opt_string};
use crate::pdf_page::opt_int;
use crate::text::{char_vecs_view, chars_of, join_with, split_chars, split_on, string_from_chars};
use crate::tier2::{code_chunk_built, join_lines, make_chunk, opt_view};

verus! {

/// Version label of [`CodeTsAstV1Chunker`].
pub open spec fn ts_label() -> Seq<char> {
    "code-ts-ast-v1"@
}

/// The last blank line in `lines[lo..hi]`, if any.
pub open spec fn blank_search(lines: Seq<Seq<char>>, lo: int, hi: int) -> Option<int>
    decreases hi - lo,
{
    if hi <= lo {
        None
    } else if all_ws(lines[hi - 1]) {
        Some(hi - 1)
    } else {
        blank_search(lines, lo, hi - 1)
    }
}

proof fn lemma_blank_search(lines: Seq<Seq<char>>, lo: int, hi: int)
    ensures
        blank_search(lines, lo, hi) matches Some(b) ==> lo <= b < hi,
        blank_search(lines, lo, hi) matches Some(b) ==> all_ws(lines[b]),
        blank_search(lines, lo, hi) matches Some(b) ==> forall|j: int| b < j < hi ==> !all_ws(#[trigger] lines[j]),
        blank_search(lines, lo, hi) is None ==> forall|j: int| lo <= j < hi ==> !all_ws(#[trigger] lines[j]),
    decreases hi - lo,
{
    if hi > lo && !all_ws(lines[hi - 1]) {
        lemma_blank_search(lines, lo, hi - 1);
    }
}

/// The exclusive end of the part starting at line `start`: 200 lines on,
/// pulled back to just after the last blank line among lines
/// `start + 160 .. start + 200` when the unit continues beyond.
pub open spec fn part_end(lines: Seq<Seq<char>>, start: int) -> int {
    let total = lines.len() as int;
    let end = if start + 200 < total {
        start + 200
    } else {
        total
    };
    let floor = start + 160;
    if end < total {
        match blank_search(lines, if floor < end { floor } else { end }, end) {
            Some(b) => b + 1,
            None => end,
        }
    } else {
        end
    }
}

pub proof fn lemma_part_end(lines: Seq<Seq<char>>, start: int)
    requires
        0 <= start < lines.len(),
    ensures
        start < part_end(lines, start) <= lines.len(),
        part_end(lines, start) <= start + 200,
        part_end(lines, start) < lines.len() ==> part_end(lines, start) >= start + 161,
{
    let total = lines.len() as int;
    let end = if start + 200 < total {
        start + 200
    } else {
        total
    };
    let floor = start + 160;
    lemma_blank_search(lines, if floor < end { floor } else { end }, end);
}

/// The parts `(start, end)` (0-based, end exclusive) from line `start` on.
pub open spec fn parts_from(lines: Seq<Seq<char>>, start: int) -> Seq<(int, int)>
    decreases lines.len() - start,
{
    if 0 <= start < lines.len() {
        let e = part_end(lines, start);
        proof {
            lemma_part_end(lines, start);
        }
        seq![(start, e)] + parts_from(lines, e)
    } else {
        seq![]
    }
}

proof fn lemma_parts_from_elem(lines: Seq<Seq<char>>, s: int, i: int)
    requires
        0 <= i < parts_from(lines, s).len(),
    ensures
        0 <= parts_from(lines, s)[i].0 < lines.len(),
        parts_from(lines, s)[i].1 == part_end(lines, parts_from(lines, s)[i].0),
    decreases lines.len() - s,
{
    if 0 <= s < lines.len() {
        lemma_part_end(lines, s);
        if i > 0 {
            lemma_parts_from_elem(lines, part_end(lines, s), i - 1);
        }
    }
}

/// Where a part of an oversize unit ends, when the unit goes on after it:
/// at most 200 lines on; just after the last blank line among the part's
/// lines 160 to 199 when one of them is blank; else after exactly 200 lines.
pub proof fn lemma_ts_part_cut(code: Seq<char>, i: int)
    requires
        0 <= i < ts_parts(code).len(),
    ensures
        ({
            let lines = split_on(code, '\n');
            let p = ts_parts(code)[i];
            p.1 < lines.len() ==> {
                &&& p.0 < p.1 <= p.0 + 200
                &&& (exists|b: int| p.0 + 160 <= b < p.0 + 200 && all_ws(#[trigger] lines[b])) ==> {
                    &&& p.0 + 160 < p.1
                    &&& all_ws(lines[p.1 - 1])
                    &&& forall|b: int| p.1 <= b < p.0 + 200 ==> !all_ws(#[trigger] lines[b])
                }
                &&& !(exists|b: int| p.0 + 160 <= b < p.0 + 200 && all_ws(#[trigger] lines[b])) ==> p.1 == p.0
                    + 200
            }
        }),
{
    let lines = split_on(code, '\n');
    lemma_parts_from_elem(lines, 0, i);
    let s = ts_parts(code)[i].0;
    lemma_part_end(lines, s);
    let total = lines.len() as int;
    let end = if s + 200 < total {
        s + 200
    } else {
        total
    };
    let floor = s + 160;
    lemma_blank_search(lines, if floor < end { floor } else { end }, end);
}

/// The parts of a code unit's `\n`-separated lines.
pub open spec fn ts_parts(code: Seq<char>) -> Seq<(int, int)> {
    parts_from(split_on(code, '\n'), 0)
}

/// The text of a part: its lines joined by `\n`.
pub open spec fn part_text(code: Seq<char>, p: (int, int)) -> Seq<char> {
    join_with(split_on(code, '\n').subrange(p.0, p.1), seq!['\n'])
}

/// The last blank line in `lines[lo..hi]`.
fn last_blank(lines: &Vec<Vec<char>>, lo: usize, hi: usize) -> (res: Option<usize>)
    requires
        hi <= lines@.len(),
    ensures
        opt_int(res) == blank_search(char_vecs_view(lines@), lo as int, hi as int),
{
    let ghost lv = char_vecs_view(lines@);
    let mut h = hi;
    while h > lo
        invariant
            h <= hi <= lines@.len(),
            lv == char_vecs_view(lines@),
            blank_search(lv, lo as int, h as int) == blank_search(lv, lo as int, hi as int),
        decreases h,
    {
        proof {
            assert(lv[h - 1] == lines@[h - 1]@);
        }
        if is_blank(&lines[h - 1]) {
            return Some(h - 1);
        }
        h = h - 1;
    }
    None
}

/// Cut an oversize unit into parts `(first line, last line, text)` with
/// 0-based line offsets within the unit (see `part_end`).
pub fn split_oversize(code: &str) -> (res: Vec<(u32, u32, String)>)
    requires
        split_on(code@, '\n').len() + 200 <= u32::MAX,
    ensures
        res@.len() == ts_parts(code@).len(),
        forall|i: int|
            0 <= i < res@.len() ==> {
                let p = ts_parts(code@)[i];
                &&& (#[trigger] res@[i]).0 as int == p.0
                &&& res@[i].1 as int == p.1 - 1
                &&& res@[i].2@ == part_text(code@, p)
            },
{
    let chars = chars_of(code);
    let lines = split_chars(&chars, '\n');
    let ghost lv = split_on(code@, '\n');
    let total = lines.len();
    let ghost all = parts_from(lv, 0);
    let mut out: Vec<(u32, u32, String)> = Vec::new();
    let mut start: usize = 0;
    proof {
        assert(Seq::<(int, int)>::empty() + parts_from(lv, 0) =~= all);
    }
    while start < total
        invariant
            total == lines@.len(),
            char_vecs_view(lines@) == lv,
            lv == split_on(code@, '\n'),
            total + 200 <= u32::MAX,
            start <= total,
            out@.map_values(|x: (u32, u32, String)| (x.0 as int, x.1 as int + 1)) + parts_from(lv, start as int)
                == all,
            forall|i: int|
                0 <= i < out@.len() ==> (#[trigger] out@[i]).2@ == join_with(
                    lv.subrange(out@[i].0 as int, out@[i].1 as int + 1),
                    seq!['\n'],
                ),
        decreases total - start,
    {
        let mut end: usize = if total - start > 200 {
            start + 200
        } else {
            total
        };
        let floor = start + 160;
        if end < total {
            let lo = if floor < end {
                floor
            } else {
                end
            };
            let found = last_blank(&lines, lo, end);
            proof {
                lemma_blank_search(lv, lo as int, end as int);
            }
            match found {
                Some(b) => {
                    end = b + 1;
                },
                None => {},
            }
        }
        proof {
            lemma_part_end(lv, start as int);
            assert(end as int == part_end(lv, start as int));
        }
        let joined = join_lines(&lines, start, end);
        let text = string_from_chars(&joined);
        let ghost old_out = out@;
        out.push((start as u32, (end - 1) as u32, text));
        proof {
            let f = |x: (u32, u32, String)| (x.0 as int, x.1 as int + 1);
            assert(out@.map_values(f) =~= old_out.map_values(f).push((start as int, end as int)));
            assert(parts_from(lv, start as int) == seq![(start as int, end as int)] + parts_from(lv, end as int));
            assert(out@.map_values(f) + parts_from(lv, end as int) =~= old_out.map_values(f) + parts_from(
                lv,
                start as int,
            ));
            assert forall|i: int| 0 <= i < out@.len() implies (#[trigger] out@[i]).2@ == join_with(
                lv.subrange(out@[i].0 as int, out@[i].1 as int + 1),
                seq!['\n'],
            ) by {
                if i < old_out.len() {
                    assert(out@[i] == old_out[i]);
                }
            }
        }
        start = end;
    }
    proof {
        let f = |x: (u32, u32, String)| (x.0 as int, x.1 as int + 1);
        assert(parts_from(lv, total as int) =~= Seq::<(int, int)>::empty());
        assert(out@.map_values(f) =~= all);
        assert forall|i: int| 0 <= i < out@.len() implies {
            let p = ts_parts(code@)[i];
            &&& (#[trigger] out@[i]).0 as int == p.0
            &&& out@[i].1 as int == p.1 - 1
            &&& out@[i].2@ == part_text(code@, p)
        } by {
            assert(out@.map_values(f)[i] == f(out@[i]));
        }
    }
    out
}


/// The error for the first block of `blocks[..m]` that is not a code unit
/// (a code block with a code span), if any.
pub open spec fn ts_validation(blocks: Seq<Block>, m: int) -> Option<ChunkError>
    decreases m,
{
    if m <= 0 {
        None
    } else {
        match ts_validation(blocks, m - 1) {
            Some(e) => Some(e),
            None => if !(blocks[m - 1] is Code) {
                Some(ChunkError::NonCodeBlock)
            } else if !(blocks[m - 1].common_spec().source_span is Code) {
                Some(ChunkError::NonCodeSpan)
            } else {
                None
            },
        }
    }
}

pub open spec fn unit_code(b: Block) -> Seq<char> {
    match b {
        Block::Code(c) => c.code@,
        _ => seq![],
    }
}

pub open spec fn unit_lines(b: Block) -> (u32, u32) {
    match b.common_spec().source_span {
        SourceSpan::Code { line_start, line_end, .. } => (line_start, line_end),
        _ => (0, 0),
    }
}

pub open spec fn unit_symbol(b: Block) -> Option<Seq<char>> {
    match b.common_spec().source_span {
        SourceSpan::Code { symbol, .. } => opt_view(symbol),
        _ => None,
    }
}

pub open spec fn unit_lang(b: Block) -> Option<Seq<char>> {
    match b.common_spec().source_span {
        SourceSpan::Code { lang, .. } => opt_view(lang),
        _ => None,
    }
}

/// Lines spanned by a unit: `line_end - line_start` (at least 0) plus one.
pub open spec fn span_lines(ls: u32, le: u32) -> int {
    (if le >= ls { le - ls } else { 0 }) + 1
}

/// The line numbers of a unit and of its parts fit `u32`.
pub open spec fn unit_fits(b: Block) -> bool {
    let (ls, le) = unit_lines(b);
    let total = split_on(unit_code(b), '\n').len();
    &&& span_lines(ls, le) <= u32::MAX
    &&& span_lines(ls, le) > 200 ==> total + 200 <= u32::MAX && ls + total - 1 <= u32::MAX
}

/// The symbol of part `i` of `n`: `<symbol> [part {i+1}/{n}]`.
pub open spec fn part_symbol(symbol: Option<Seq<char>>, i: int, n: int) -> Option<Seq<char>> {
    match symbol {
        Some(s) => Some(
            s + seq![' ', '[', 'p', 'a', 'r', 't', ' '] + decimal((i + 1) as nat) + seq!['/'] + decimal(
                n as nat,
            ) + seq![']'],
        ),
        None => None,
    }
}

/// How many chunks a unit gives.
pub open spec fn ts_count(b: Block) -> nat {
    let (ls, le) = unit_lines(b);
    if span_lines(ls, le) <= 200 {
        1
    } else {
        ts_parts(unit_code(b)).len()
    }
}

/// Chunk `i` of unit `j`: the whole unit, or part `i` of its split.
pub open spec fn ts_chunk_ok(blocks: Seq<Block>, doc_id: Seq<char>, ph: Seq<char>) -> spec_fn(int, int, Chunk) -> bool {
    |j: int, i: int, c: Chunk|
        {
            let b = blocks[j];
            let (ls, le) = unit_lines(b);
            let code = unit_code(b);
            let ids = seq![b.common_spec().block_id@];
            if span_lines(ls, le) <= 200 {
                code_chunk_built(c, doc_id, ts_label(), ph, ids, code, ls, le, unit_symbol(b), unit_lang(b), None)
            } else {
                let p = ts_parts(code)[i];
                code_chunk_built(
                    c,
                    doc_id,
                    ts_label(),
                    ph,
                    ids,
                    part_text(code, p),
                    (ls + p.0) as u32,
                    (ls + p.1 - 1) as u32,
                    part_symbol(unit_symbol(b), i, ts_parts(code).len() as int),
                    unit_lang(b),
                    Some((ls + p.0) as u32),
                )
            }
        }
}

fn part_symbol_exec(symbol: &Option<String>, i: usize, n: usize) -> (res: Option<String>)
    requires
        i < n,
    ensures
        opt_view(res) == part_symbol(opt_view(*symbol), i as int, n as int),
{
    match symbol {
        Some(s) => {
            let mut out = chars_of(s.as_str());
            let ghost s0 = out@;
            out.push(' ');
            out.push('[');
            out.push('p');
            out.push('a');
            out.push('r');
            out.push('t');
            out.push(' ');
            let ghost s1 = out@;
            push_decimal(&mut out, i as u64 + 1);
            out.push('/');
            let ghost s2 = out@;
            push_decimal(&mut out, n as u64);
            out.push(']');
            let res = string_from_chars(&out);
            proof {
                assert(s1 =~= s@ + seq![' ', '[', 'p', 'a', 'r', 't', ' ']);
                assert(res@ =~= s@ + seq![' ', '[', 'p', 'a', 'r', 't', ' '] + decimal((i + 1) as nat) + seq!['/']
                    + decimal(n as nat) + seq![']']);
            }
            Some(res)
        },
        None => None,
    }
}

proof fn lemma_ts_validation_ok(blocks: Seq<Block>, m: int)
    requires
        0 <= m <= blocks.len(),
        ts_validation(blocks, m) is None,
    ensures
        forall|k: int|
            0 <= k < m ==> (#[trigger] blocks[k]) is Code && blocks[k].common_spec().source_span is Code,
    decreases m,
{
    if m > 0 {
        lemma_ts_validation_ok(blocks, m - 1);
    }
}

proof fn lemma_ts_validation_stable(blocks: Seq<Block>, k: int, m: int)
    requires
        0 <= k <= m,
        ts_validation(blocks, k) is Some,
    ensures
        ts_validation(blocks, m) == ts_validation(blocks, k),
    decreases m - k,
{
    if m > k {
        lemma_ts_validation_stable(blocks, k, m - 1);
    }
}

/// TypeScript AST chunker (`code-ts-ast-v1`).
#[derive(Clone, Copy, Debug, Default)]
pub struct CodeTsAstV1Chunker;

impl CodeTsAstV1Chunker {
    pub fn chunker_version(&self) -> (res: String)
        ensures
            res@ == ts_label(),
    {
        String::from_str("code-ts-ast-v1")
    }

    /// First 16 hex characters of the BLAKE3 digest of the policy's
    /// canonical JSON.
    pub fn policy_hash(&self, policy: &ChunkPolicy) -> (res: String)
        ensures
            res@ == policy_hash_spec(*policy, None),
            res@.len() == 16,
            forall|i: int| 0 <= i < 16 ==> is_lower_hex(#[trigger] res@[i]),
    {
        policy_hash_of(policy, None)
    }

    /// Chunk a code document: every block must be a code unit (else the
    /// error for the first block that is not); each unit gives its chunk or
    /// its parts, in order.
    pub fn chunk(&self, doc: &CanonicalDocument, policy: &ChunkPolicy) -> (res: Result<Vec<Chunk>, ChunkError>)
        requires
            ts_validation(doc.blocks@, doc.blocks@.len() as int) is None ==> forall|k: int|
                0 <= k < doc.blocks@.len() ==> unit_fits(#[trigger] doc.blocks@[k]),
        ensures
            match ts_validation(doc.blocks@, doc.blocks@.len() as int) {
                Some(e) => res == Err::<Vec<Chunk>, ChunkError>(e),
                None => res matches Ok(chunks) && grouped(
                    chunks@,
                    doc.blocks@.map_values(|b: Block| ts_count(b)),
                    ts_chunk_ok(doc.blocks@, doc.doc_id@, policy_hash_spec(*policy, None)),
                ),
            },
    {
        let n = doc.blocks.len();
        let mut k: usize = 0;
        while k < n
            invariant
                n == doc.blocks@.len(),
                k <= n,
                ts_validation(doc.blocks@, k as int) is None,
            decreases n - k,
        {
            match &doc.blocks[k] {
                Block::Code(c) => match &c.common.source_span {
                    SourceSpan::Code { .. } => {},
                    _ => {
                        proof {
                            lemma_ts_validation_stable(doc.blocks@, k + 1, n as int);
                        }
                        return Err(ChunkError::NonCodeSpan);
                    },
                },
                _ => {
                    proof {
                        lemma_ts_validation_stable(doc.blocks@, k + 1, n as int);
                    }
                    return Err(ChunkError::NonCodeBlock);
                },
            }
            k = k + 1;
        }
        proof {
            lemma_ts_validation_ok(doc.blocks@, n as int);
        }
        let ph = policy_hash_of(policy, None);
        let ghost blocks = doc.blocks@;
        let ghost counts = blocks.map_values(|b: Block| ts_count(b));
        let ghost ok = ts_chunk_ok(blocks, doc.doc_id@, policy_hash_spec(*policy, None));
        proof {
            assert(counts.take(0) =~= Seq::<nat>::empty());
            assert(grouped(Seq::<Chunk>::empty(), counts.take(0), ok));
        }
        let mut out: Vec<Chunk> = Vec::new();
        let mut j: usize = 0;
        while j < n
            invariant
                n == blocks.len(),
                blocks == doc.blocks@,
                j <= n,
                forall|q: int|
                    0 <= q < n ==> (#[trigger] blocks[q]) is Code && blocks[q].common_spec().source_span is Code,
                forall|q: int| 0 <= q < n ==> unit_fits(#[trigger] blocks[q]),
                ph@ == policy_hash_spec(*policy, None),
                counts == blocks.map_values(|b: Block| ts_count(b)),
                ok == ts_chunk_ok(blocks, doc.doc_id@, policy_hash_spec(*policy, None)),
                grouped(out@, counts.take(j as int), ok),
            decreases n - j,
        {
            let ghost b = blocks[j as int];
            proof {
                assert(b is Code && b.common_spec().source_span is Code);
                assert(unit_fits(b));
            }
            let ghost old_out = out@;
            match &doc.blocks[j] {
                Block::Code(cb) => match &cb.common.source_span {
                    SourceSpan::Code { line_start, line_end, symbol, lang } => {
                        let ls = *line_start;
                        let le = *line_end;
                        let diff: u32 = if le >= ls {
                            le - ls
                        } else {
                            0
                        };
                        let n_lines = diff + 1;
                        if n_lines <= 200 {
                            let mut block_ids: Vec<String> = Vec::new();
                            block_ids.push(cb.common.block_id.clone());
                            let span = SourceSpan::Code {
                                line_start: ls,
                                line_end: le,
                                symbol: clone_opt_string(symbol),
                                lang: clone_opt_string(lang),
                            };
                            let c = make_chunk(
                                doc.doc_id.as_str(),
                                "code-ts-ast-v1",
                                block_ids,
                                ph.as_str(),
                                None,
                                span,
                                cb.code.clone(),
                            );
                            out.push(c);
                            proof {
                                assert(strs(c.block_ids@) =~= seq![b.common_spec().block_id@]);
                                let added = seq![c];
                                assert forall|i: int| 0 <= i < added.len() implies ok(j as int, i, #[trigger] added[i]) by {
                                    assert(added[i] == c);
                                }
                                lemma_grouped_append(old_out, added, counts.take(j as int), ok);
                                assert(old_out + added =~= out@);
                                assert(counts.take(j as int).push(1) =~= counts.take(j + 1));
                            }
                        } else {
                            let parts = split_oversize(cb.code.as_str());
                            let np = parts.len();
                            let ghost ps = ts_parts(cb.code@);
                            let ghost total = split_on(cb.code@, '\n').len();
                            proof {
                                lemma_parts_bounds(split_on(cb.code@, '\n'), 0);
                            }
                            let mut i: usize = 0;
                            while i < np
                                invariant
                                    i <= np,
                                    np == parts@.len(),
                                    np == ps.len(),
                                    ps == ts_parts(cb.code@),
                                    b == Block::Code(*cb),
                                    cb.common.source_span == (SourceSpan::Code {
                                        line_start: ls,
                                        line_end: le,
                                        symbol: *symbol,
                                        lang: *lang,
                                    }),
                                    unit_lines(b) == (ls, le),
                                    span_lines(ls, le) > 200,
                                    unit_fits(b),
                                    total == split_on(cb.code@, '\n').len(),
                                    forall|q: int| 0 <= q < ps.len() ==> 0 <= (#[trigger] ps[q]).0 < ps[q].1 <= total,
                                    forall|q: int|
                                        0 <= q < parts@.len() ==> {
                                            let p = ps[q];
                                            &&& (#[trigger] parts@[q]).0 as int == p.0
                                            &&& parts@[q].1 as int == p.1 - 1
                                            &&& parts@[q].2@ == part_text(cb.code@, p)
                                        },
                                    ph@ == policy_hash_spec(*policy, None),
                                    out@.len() == old_out.len() + i,
                                    out@.subrange(0, old_out.len() as int) == old_out,
                                    forall|q: int| 0 <= q < i ==> ok(j as int, q, #[trigger] out@[old_out.len() + q]),
                                    ok == ts_chunk_ok(blocks, doc.doc_id@, policy_hash_spec(*policy, None)),
                                    blocks[j as int] == b,
                                decreases np - i,
                            {
                                let (off_start, off_end, text) = &parts[i];
                                let part_ls = ls + *off_start;
                                let part_le = ls + *off_end;
                                let part_sym = part_symbol_exec(symbol, i, np);
                                let mut block_ids: Vec<String> = Vec::new();
                                block_ids.push(cb.common.block_id.clone());
                                let span = SourceSpan::Code {
                                    line_start: part_ls,
                                    line_end: part_le,
                                    symbol: part_sym,
                                    lang: clone_opt_string(lang),
                                };
                                let c = make_chunk(
                                    doc.doc_id.as_str(),
                                    "code-ts-ast-v1",
                                    block_ids,
                                    ph.as_str(),
                                    Some(part_ls),
                                    span,
                                    text.clone(),
                                );
                                let ghost before = out@;
                                out.push(c);
                                proof {
                                    assert(strs(c.block_ids@) =~= seq![b.common_spec().block_id@]);
                                    assert(ok(j as int, i as int, c));
                                    assert(out@.subrange(0, old_out.len() as int) =~= old_out) by {
                                        assert(before.subrange(0, old_out.len() as int) == old_out);
                                    }
                                    assert forall|q: int| 0 <= q < i + 1 implies ok(
                                        j as int,
                                        q,
                                        #[trigger] out@[old_out.len() + q],
                                    ) by {
                                        if q < i {
                                            assert(out@[old_out.len() + q] == before[old_out.len() + q]);
                                        }
                                    }
                                }
                                i = i + 1;
                            }
                            proof {
                                let added = out@.subrange(old_out.len() as int, out@.len() as int);
                                assert forall|q: int| 0 <= q < added.len() implies ok(j as int, q, #[trigger] added[q]) by {
                                    assert(added[q] == out@[old_out.len() + q]);
                                }
                                lemma_grouped_append(old_out, added, counts.take(j as int), ok);
                                assert(old_out + added =~= out@);
                                assert(counts.take(j as int).push(added.len()) =~= counts.take(j + 1));
                            }
                        }
                    },
                    _ => {
                        proof {
                            assert(false);
                        }
                    },
                },
                _ => {
                    proof {
                        assert(false);
                    }
                },
            }
            j = j + 1;
        }
        proof {
            assert(counts.take(n as int) =~= counts);
        }
        Ok(out)
    }
}

/// Parts lie within the lines, each non-empty.
proof fn lemma_parts_bounds(lines: Seq<Seq<char>>, start: int)
    requires
        0 <= start,
    ensures
        forall|q: int|
            0 <= q < parts_from(lines, start).len() ==> start <= (#[trigger] parts_from(lines, start)[q]).0
                < parts_from(lines, start)[q].1 <= lines.len(),
    decreases lines.len() - start,
{
    if start < lines.len() {
        let e = part_end(lines, start);
        lemma_part_end(lines, start);
        lemma_parts_bounds(lines, e);
        let r = parts_from(lines, start);
        assert forall|q: int| 0 <= q < r.len() implies start <= (#[trigger] r[q]).0 < r[q].1 <= lines.len() by {
            if q > 0 {
                assert(r[q] == parts_from(lines, e)[q - 1]);
            }
        }
    }
}


proof fn lemma_join_cons(x: Seq<char>, rest: Seq<Seq<char>>, sep: Seq<char>)
    requires
        rest.len() >= 1,
    ensures
        join_with(seq![x] + rest, sep) == x + sep + join_with(rest, sep),
    decreases rest.len(),
{
    let all = seq![x] + rest;
    if rest.len() == 1 {
        assert(all.drop_last() =~= seq![x]);
        assert(all.last() == rest[0]);
        assert(join_with(seq![x], sep) == x);
        assert(join_with(all, sep) == join_with(all.drop_last(), sep) + sep + all.last());
        assert(join_with(rest, sep) == rest[0]);
    } else {
        lemma_join_cons(x, rest.drop_last(), sep);
        assert(all.drop_last() =~= seq![x] + rest.drop_last());
        assert(all.last() == rest.last());
        assert(join_with(all, sep) == join_with(all.drop_last(), sep) + sep + all.last());
        assert(join_with(rest, sep) == join_with(rest.drop_last(), sep) + sep + rest.last());
        assert(x + sep + join_with(rest.drop_last(), sep) + sep + rest.last() =~= x + sep + (join_with(
            rest.drop_last(),
            sep,
        ) + sep + rest.last()));
    }
}

proof fn lemma_join_split_at(lines: Seq<Seq<char>>, a: int, b: int, c: int)
    requires
        0 <= a < b < c <= lines.len(),
    ensures
        join_with(lines.subrange(a, c), seq!['\n']) == join_with(lines.subrange(a, b), seq!['\n']) + seq!['\n']
            + join_with(lines.subrange(b, c), seq!['\n']),
    decreases c - b,
{
    let sep = seq!['\n'];
    assert(lines.subrange(a, c).drop_last() =~= lines.subrange(a, c - 1));
    assert(lines.subrange(a, c).last() == lines[c - 1]);
    if c == b + 1 {
        assert(lines.subrange(b, c) =~= seq![lines[b]]);
    } else {
        lemma_join_split_at(lines, a, b, c - 1);
        assert(lines.subrange(b, c).drop_last() =~= lines.subrange(b, c - 1));
        assert(lines.subrange(b, c).last() == lines[c - 1]);
        let jab = join_with(lines.subrange(a, b), sep);
        let jbc1 = join_with(lines.subrange(b, c - 1), sep);
        assert(jab + sep + jbc1 + sep + lines[c - 1] =~= jab + sep + (jbc1 + sep + lines[c - 1]));
    }
}

proof fn lemma_parts_join(lines: Seq<Seq<char>>, s: int)
    requires
        0 <= s < lines.len(),
    ensures
        join_with(
            parts_from(lines, s).map_values(|p: (int, int)| join_with(lines.subrange(p.0, p.1), seq!['\n'])),
            seq!['\n'],
        ) == join_with(lines.subrange(s, lines.len() as int), seq!['\n']),
    decreases lines.len() - s,
{
    let f = |p: (int, int)| join_with(lines.subrange(p.0, p.1), seq!['\n']);
    let e = part_end(lines, s);
    lemma_part_end(lines, s);
    let r = parts_from(lines, s);
    assert(r == seq![(s, e)] + parts_from(lines, e));
    if e == lines.len() {
        assert(parts_from(lines, e) =~= Seq::<(int, int)>::empty());
        assert(r.map_values(f) =~= seq![f((s, e))]);
    } else {
        lemma_parts_join(lines, e);
        let rest = parts_from(lines, e).map_values(f);
        assert(parts_from(lines, e).len() >= 1);
        assert(r.map_values(f) =~= seq![f((s, e))] + rest);
        lemma_join_cons(f((s, e)), rest, seq!['\n']);
        lemma_join_split_at(lines, s, e, lines.len() as int);
    }
}

proof fn lemma_parts_tile(lines: Seq<Seq<char>>, s: int)
    requires
        0 <= s < lines.len(),
    ensures
        parts_from(lines, s).len() >= 1,
        parts_from(lines, s)[0].0 == s,
        parts_from(lines, s).last().1 == lines.len(),
        forall|q: int|
            0 <= q < parts_from(lines, s).len() - 1 ==> (#[trigger] parts_from(lines, s)[q]).1
                == parts_from(lines, s)[q + 1].0,
        forall|q: int|
            0 <= q < parts_from(lines, s).len() ==> (#[trigger] parts_from(lines, s)[q]).1
                - parts_from(lines, s)[q].0 <= 200,
    decreases lines.len() - s,
{
    let e = part_end(lines, s);
    lemma_part_end(lines, s);
    let r = parts_from(lines, s);
    if e < lines.len() {
        lemma_parts_tile(lines, e);
        let rest = parts_from(lines, e);
        assert forall|q: int| 0 <= q < r.len() - 1 implies (#[trigger] r[q]).1 == r[q + 1].0 by {
            assert(r[q + 1] == rest[q]);
            if q > 0 {
                assert(r[q] == rest[q - 1]);
            }
        }
        assert forall|q: int| 0 <= q < r.len() implies (#[trigger] r[q]).1 - r[q].0 <= 200 by {
            if q > 0 {
                assert(r[q] == rest[q - 1]);
            }
        }
        assert(r.last() == rest.last());
    } else {
        assert(parts_from(lines, e) =~= Seq::<(int, int)>::empty());
        assert(r =~= seq![(s, e)]);
    }
}

/// The parts of a unit cover its `\n`-separated lines in order (the first
/// starts at line 0, each starts where the previous ends, the last ends
/// at the last line), each part has at most 200 lines, and joining the
/// parts' texts with `\n` gives back the unit's code.
pub proof fn lemma_ts_parts_laws(code: Seq<char>)
    ensures
        ts_parts(code).len() >= 1,
        ts_parts(code)[0].0 == 0,
        ts_parts(code).last().1 == split_on(code, '\n').len(),
        forall|q: int|
            0 <= q < ts_parts(code).len() - 1 ==> (#[trigger] ts_parts(code)[q]).1 == ts_parts(code)[q + 1].0,
        forall|q: int| 0 <= q < ts_parts(code).len() ==> (#[trigger] ts_parts(code)[q]).1 - ts_parts(code)[q].0 <= 200,
        join_with(ts_parts(code).map_values(|p: (int, int)| part_text(code, p)), seq!['\n']) == code,
{
    let lines = split_on(code, '\n');
    lemma_parts_tile(lines, 0);
    lemma_parts_join(lines, 0);
    crate::text::lemma_split_fold_join(code, '\n');
    assert(lines.subrange(0, lines.len() as int) =~= lines);
    assert(ts_parts(code).map_values(|p: (int, int)| part_text(code, p)) =~= parts_from(lines, 0).map_values(
        |p: (int, int)| join_with(lines.subrange(p.0, p.1), seq!['\n']),
    ));
}

} // verus!
