//! Shared helpers of the resource-aware file chunkers: `str::lines`, chunk
//! construction with a code span, and the fallback that cuts an oversize
//! resource into windows of at most 200 lines.
//!
//! Every chunk built here has no block ids and no heading path, one code
//! span, a token estimate of its UTF-8 size / 3 rounded up, and an
//! identifier from the policy hash, suffixed with `#L{line}` when a split
//! key is given.

use vstd::prelude::*;
use crate::hashing::{chunk_id_spec, decimal, id_for_chunk, policy_hash_of, policy_hash_spec, push_decimal};
use crate::md_heading::strs;
use crate::model::{CanonicalDocument, Chunk, ChunkPolicy, SourceSpan};
use crate::oversize::est_tokens;
use crate::text::{
    char_vecs_view, chars_of, join_with, split_chars, split_on, string_from_chars, utf8_byte_len,
    utf8_len,
};

verus! {

/// Line count above which a resource is cut into windows.
pub const AST_CHUNK_MAX_LINES: u32 = 200;

/// A line without its trailing carriage return.
pub open spec fn strip_cr(p: Seq<char>) -> Seq<char> {
    if p.len() > 0 && p.last() == '\r' {
        p.drop_last()
    } else {
        p
    }
}

/// `str::lines`: the text split at `\n`, a `\r` before a `\n` dropped, and
/// no final empty line after a trailing `\n` (an empty text has no lines).
pub open spec fn lines_spec(s: Seq<char>) -> Seq<Seq<char>> {
    let parts = split_on(s, '\n');
    let body = parts.drop_last().map_values(|p: Seq<char>| strip_cr(p));
    if parts.last().len() > 0 {
        body.push(parts.last())
    } else {
        body
    }
}

/// The first `k` characters of `v`.
pub fn copy_prefix(v: &Vec<char>, k: usize) -> (res: Vec<char>)
    requires
        k <= v@.len(),
    ensures
        res@ == v@.take(k as int),
{
    let mut out: Vec<char> = Vec::new();
    let mut i: usize = 0;
    while i < k
        invariant
            i <= k <= v@.len(),
            out@ == v@.take(i as int),
        decreases k - i,
    {
        out.push(v[i]);
        proof {
            assert(v@.take(i + 1) =~= v@.take(i as int).push(v@[i as int]));
        }
        i = i + 1;
    }
    out
}

/// The lines of `text`, as `str::lines` gives them.
pub fn text_lines(text: &str) -> (res: Vec<Vec<char>>)
    ensures
        char_vecs_view(res@) == lines_spec(text@),
{
    let chars = chars_of(text);
    let parts = split_chars(&chars, '\n');
    let ghost pv = split_on(text@, '\n');
    let n = parts.len();
    proof {
        assert(pv.len() >= 1);
    }
    let mut out: Vec<Vec<char>> = Vec::new();
    let mut i: usize = 0;
    while i + 1 < n
        invariant
            n == parts@.len(),
            n >= 1,
            char_vecs_view(parts@) == pv,
            i + 1 <= n,
            char_vecs_view(out@) == pv.take(i as int).map_values(|p: Seq<char>| strip_cr(p)),
        decreases n - i,
    {
        let p = &parts[i];
        let len = p.len();
        let keep = if len > 0 && p[len - 1] == '\r' {
            len - 1
        } else {
            len
        };
        let line = copy_prefix(p, keep);
        let ghost old_out = out@;
        out.push(line);
        proof {
            assert(pv[i as int] == p@);
            assert(line@ == strip_cr(p@));
            assert(char_vecs_view(out@) =~= char_vecs_view(old_out).push(line@));
            assert(pv.take(i + 1).map_values(|q: Seq<char>| strip_cr(q)) =~= pv.take(i as int).map_values(
                |q: Seq<char>| strip_cr(q),
            ).push(strip_cr(pv[i as int])));
        }
        i = i + 1;
    }
    let last = &parts[n - 1];
    proof {
        assert(pv.take(n - 1) =~= pv.drop_last());
        assert(pv.last() == last@);
    }
    if last.len() > 0 {
        let line = copy_prefix(last, last.len());
        let ghost old_out = out@;
        out.push(line);
        proof {
            assert(last@.take(last@.len() as int) =~= last@);
            assert(char_vecs_view(out@) =~= char_vecs_view(old_out).push(line@));
        }
    }
    out
}

/// Lines `a..b` of `lines`, joined by `\n`.
pub fn join_lines(lines: &Vec<Vec<char>>, a: usize, b: usize) -> (res: Vec<char>)
    requires
        a <= b <= lines@.len(),
    ensures
        res@ == join_with(char_vecs_view(lines@).subrange(a as int, b as int), seq!['\n']),
{
    let ghost lv = char_vecs_view(lines@);
    let mut out: Vec<char> = Vec::new();
    let mut k: usize = a;
    proof {
        assert(lv.subrange(a as int, a as int) =~= Seq::<Seq<char>>::empty());
    }
    while k < b
        invariant
            a <= k <= b <= lines@.len(),
            lv == char_vecs_view(lines@),
            out@ == join_with(lv.subrange(a as int, k as int), seq!['\n']),
        decreases b - k,
    {
        let ghost before = out@;
        if k > a {
            out.push('\n');
        }
        let line = &lines[k];
        let ghost mid = out@;
        let mut j: usize = 0;
        while j < line.len()
            invariant
                j <= line@.len(),
                out@ == mid + line@.take(j as int),
            decreases line@.len() - j,
        {
            out.push(line[j]);
            proof {
                assert(line@.take(j + 1) =~= line@.take(j as int).push(line@[j as int]));
            }
            j = j + 1;
        }
        proof {
            assert(line@.take(line@.len() as int) =~= line@);
            let cur = lv.subrange(a as int, k + 1);
            assert(cur.drop_last() =~= lv.subrange(a as int, k as int));
            assert(cur.last() == line@);
            if k > a {
                assert(out@ =~= before + seq!['\n'] + line@);
            } else {
                assert(cur.len() == 1);
                assert(out@ =~= line@);
            }
        }
        k = k + 1;
    }
    out
}

/// The id hash: the policy hash, suffixed with `#L{k}` for split key `k`.
pub open spec fn id_hash_spec(ph: Seq<char>, split_key: Option<u32>) -> Seq<char> {
    match split_key {
        Some(k) => ph + seq!['#', 'L'] + decimal(k as nat),
        None => ph,
    }
}

fn split_hash(ph: &str, split_key: Option<u32>) -> (res: String)
    ensures
        res@ == id_hash_spec(ph@, split_key),
{
    match split_key {
        Some(k) => {
            let mut out = chars_of(ph);
            out.push('#');
            out.push('L');
            let ghost before = out@;
            push_decimal(&mut out, k as u64);
            let res = string_from_chars(&out);
            proof {
                assert(before =~= ph@ + seq!['#', 'L']);
                assert(res@ =~= ph@ + seq!['#', 'L'] + decimal(k as nat));
            }
            res
        },
        None => String::from_str(ph),
    }
}

pub open spec fn opt_view(o: Option<String>) -> Option<Seq<char>> {
    match o {
        Some(s) => Some(s@),
        None => None,
    }
}

/// `sp` is the code span of lines `ls..=le` with this symbol and language.
pub open spec fn code_span_is(
    sp: SourceSpan,
    ls: u32,
    le: u32,
    symbol: Option<Seq<char>>,
    lang: Option<Seq<char>>,
) -> bool {
    match sp {
        SourceSpan::Code { line_start, line_end, symbol: s, lang: l } => {
            &&& line_start == ls
            &&& line_end == le
            &&& opt_view(s) == symbol
            &&& opt_view(l) == lang
        },
        _ => false,
    }
}

/// `c` is the chunk of `text` spanning lines `ls..=le`.
pub open spec fn code_chunk_built(
    c: Chunk,
    doc_id: Seq<char>,
    cv: Seq<char>,
    ph: Seq<char>,
    block_ids: Seq<Seq<char>>,
    text: Seq<char>,
    ls: u32,
    le: u32,
    symbol: Option<Seq<char>>,
    lang: Option<Seq<char>>,
    split_key: Option<u32>,
) -> bool {
    &&& c.chunk_id@ == chunk_id_spec(doc_id, cv, block_ids, id_hash_spec(ph, split_key))
    &&& c.doc_id@ == doc_id
    &&& strs(c.block_ids@) == block_ids
    &&& c.text@ == text
    &&& c.heading_path@.len() == 0
    &&& c.source_spans@.len() == 1
    &&& code_span_is(c.source_spans@[0], ls, le, symbol, lang)
    &&& c.token_estimate as nat == est_tokens(utf8_len(text))
    &&& c.chunker_version@ == cv
    &&& c.policy_hash@ == ph
    &&& c.tokenized_korean_text is None
}

/// The chunk of `text` with code span `span`, made from `block_ids`.
pub fn make_chunk(
    doc_id: &str,
    cv: &str,
    block_ids: Vec<String>,
    ph: &str,
    split_key: Option<u32>,
    span: SourceSpan,
    text: String,
) -> (res: Chunk)
    ensures
        res.chunk_id@ == chunk_id_spec(doc_id@, cv@, strs(block_ids@), id_hash_spec(ph@, split_key)),
        res.doc_id@ == doc_id@,
        res.block_ids@ == block_ids@,
        res.text@ == text@,
        res.heading_path@.len() == 0,
        res.source_spans@ == seq![span],
        res.token_estimate as nat == est_tokens(utf8_len(text@)),
        res.chunker_version@ == cv@,
        res.policy_hash@ == ph@,
        res.tokenized_korean_text is None,
{
    let id_hash = split_hash(ph, split_key);
    let chunk_id = id_for_chunk(doc_id, cv, &block_ids, id_hash.as_str());
    let n = utf8_byte_len(text.as_str());
    let token_estimate: usize = if n % 3 == 0 {
        n / 3
    } else {
        n / 3 + 1
    };
    let mut spans: Vec<SourceSpan> = Vec::new();
    spans.push(span);
    Chunk {
        chunk_id,
        doc_id: String::from_str(doc_id),
        block_ids,
        text,
        heading_path: Vec::new(),
        source_spans: spans,
        token_estimate,
        chunker_version: String::from_str(cv),
        policy_hash: String::from_str(ph),
        tokenized_korean_text: None,
    }
}

/// The chunk of `text` with span `span` and no block ids (a tier-2 or
/// tier-3 chunk: the whole file is one block).
pub fn build_chunk_from_span(
    doc: &CanonicalDocument,
    cv: &str,
    ph: &str,
    text: &str,
    span: SourceSpan,
    split_key: Option<u32>,
) -> (res: Chunk)
    ensures
        res.chunk_id@ == chunk_id_spec(doc.doc_id@, cv@, seq![], id_hash_spec(ph@, split_key)),
        res.doc_id@ == doc.doc_id@,
        res.block_ids@.len() == 0,
        res.text@ == text@,
        res.heading_path@.len() == 0,
        res.source_spans@ == seq![span],
        res.token_estimate as nat == est_tokens(utf8_len(text@)),
        res.chunker_version@ == cv@,
        res.policy_hash@ == ph@,
        res.tokenized_korean_text is None,
{
    let block_ids: Vec<String> = Vec::new();
    proof {
        assert(strs(block_ids@) =~= Seq::<Seq<char>>::empty());
    }
    make_chunk(doc.doc_id.as_str(), cv, block_ids, ph, split_key, span, String::from_str(text))
}

/// A chunk of lines `ls..=le` with symbol and language.
pub fn build_chunk(
    doc: &CanonicalDocument,
    cv: &str,
    ph: &str,
    text: &str,
    line_start: u32,
    line_end: u32,
    symbol: &str,
    lang: &str,
    split_key: Option<u32>,
) -> (res: Chunk)
    ensures
        code_chunk_built(
            res,
            doc.doc_id@,
            cv@,
            ph@,
            seq![],
            text@,
            line_start,
            line_end,
            Some(symbol@),
            Some(lang@),
            split_key,
        ),
{
    let span = SourceSpan::Code {
        line_start,
        line_end,
        symbol: Some(String::from_str(symbol)),
        lang: Some(String::from_str(lang)),
    };
    let res = build_chunk_from_span(doc, cv, ph, text, span, split_key);
    proof {
        assert(strs(res.block_ids@) =~= Seq::<Seq<char>>::empty());
    }
    res
}

/// A chunk of lines `ls..=le` with a language and no symbol.
pub fn build_chunk_no_symbol(
    doc: &CanonicalDocument,
    policy: &ChunkPolicy,
    text: &str,
    line_start: u32,
    line_end: u32,
    lang: &str,
    cv: &str,
    split_key: Option<u32>,
) -> (res: Chunk)
    ensures
        code_chunk_built(
            res,
            doc.doc_id@,
            cv@,
            policy_hash_spec(*policy, None),
            seq![],
            text@,
            line_start,
            line_end,
            None,
            Some(lang@),
            split_key,
        ),
{
    let ph = policy_hash_of(policy, None);
    let span = SourceSpan::Code { line_start, line_end, symbol: None, lang: Some(String::from_str(lang)) };
    let res = build_chunk_from_span(doc, cv, ph.as_str(), text, span, split_key);
    proof {
        assert(strs(res.block_ids@) =~= Seq::<Seq<char>>::empty());
    }
    res
}


/// Number of 200-line windows over `total` lines.
pub open spec fn window_count(total: nat) -> nat {
    if total % 200 == 0 {
        total / 200
    } else {
        total / 200 + 1
    }
}

/// Exclusive end line (0-based) of window `w` over `total` lines.
pub open spec fn window_end(total: nat, w: nat) -> nat {
    if 200 * w + 200 <= total {
        200 * w + 200
    } else {
        total
    }
}

/// The text of window `w`: its lines joined by `\n`.
pub open spec fn window_text(lines: Seq<Seq<char>>, w: nat) -> Seq<char> {
    join_with(lines.subrange(200 * w as int, window_end(lines.len(), w) as int), seq!['\n'])
}

/// How many chunks `push_chunks_with_oversize` makes for lines `ls..=le`
/// of `text`.
pub open spec fn oversize_count(text: Seq<char>, ls: u32, le: u32) -> nat {
    if le - ls + 1 <= 200 {
        1
    } else {
        window_count(lines_spec(text).len())
    }
}

/// `c` is chunk `w` of those made for `text` spanning lines `ls..=le`: the
/// one chunk when the span has at most 200 lines, else window `w` of
/// `str::lines(text)` (keyed by its first line).
pub open spec fn oversize_chunk_ok(
    c: Chunk,
    w: int,
    doc_id: Seq<char>,
    cv: Seq<char>,
    ph: Seq<char>,
    text: Seq<char>,
    ls: u32,
    le: u32,
    symbol: Option<Seq<char>>,
    lang: Option<Seq<char>>,
    base_split_key: Option<u32>,
) -> bool {
    if le - ls + 1 <= 200 {
        code_chunk_built(c, doc_id, cv, ph, seq![], text, ls, le, symbol, lang, base_split_key)
    } else {
        let lines = lines_spec(text);
        code_chunk_built(
            c,
            doc_id,
            cv,
            ph,
            seq![],
            window_text(lines, w as nat),
            (ls + 200 * w) as u32,
            (ls + window_end(lines.len(), w as nat) - 1) as u32,
            symbol,
            lang,
            Some((ls + 200 * w) as u32),
        )
    }
}

/// `added` are the chunks made for `text` spanning lines `ls..=le`.
pub open spec fn oversize_chunks_ok(
    added: Seq<Chunk>,
    doc_id: Seq<char>,
    cv: Seq<char>,
    ph: Seq<char>,
    text: Seq<char>,
    ls: u32,
    le: u32,
    symbol: Option<Seq<char>>,
    lang: Option<Seq<char>>,
    base_split_key: Option<u32>,
) -> bool {
    &&& added.len() == oversize_count(text, ls, le)
    &&& forall|w: int|
        0 <= w < added.len() ==> oversize_chunk_ok(
            #[trigger] added[w],
            w,
            doc_id,
            cv,
            ph,
            text,
            ls,
            le,
            symbol,
            lang,
            base_split_key,
        )
}

/// Append the chunks of `text` spanning lines `line_start..=line_end`: one
/// chunk, or, above 200 lines, one per 200-line window.
pub fn push_chunks_with_oversize(
    out: &mut Vec<Chunk>,
    doc: &CanonicalDocument,
    policy: &ChunkPolicy,
    text: &str,
    line_start: u32,
    line_end: u32,
    symbol: &str,
    lang: &str,
    chunker_version: &str,
    base_split_key: Option<u32>,
)
    requires
        line_start <= line_end,
        line_end - line_start < u32::MAX,
        line_end - line_start + 1 > 200 ==> line_start + lines_spec(text@).len() <= u32::MAX,
    ensures
        final(out)@.len() >= old(out)@.len(),
        final(out)@.subrange(0, old(out)@.len() as int) == old(out)@,
        oversize_chunks_ok(
            final(out)@.subrange(old(out)@.len() as int, final(out)@.len() as int),
            doc.doc_id@,
            chunker_version@,
            policy_hash_spec(*policy, None),
            text@,
            line_start,
            line_end,
            Some(symbol@),
            Some(lang@),
            base_split_key,
        ),
{
    let n_lines = line_end - line_start + 1;
    let ph = policy_hash_of(policy, None);
    let ghost start = out@;
    if n_lines <= AST_CHUNK_MAX_LINES {
        let c = build_chunk(doc, chunker_version, ph.as_str(), text, line_start, line_end, symbol, lang, base_split_key);
        out.push(c);
        proof {
            assert(out@.subrange(0, start.len() as int) =~= start);
            assert(out@.subrange(start.len() as int, out@.len() as int) =~= seq![c]);
        }
        return;
    }
    let lines = text_lines(text);
    let ghost lv = lines_spec(text@);
    let total = lines.len();
    let mut window_start: u32 = line_start;
    let mut i: usize = 0;
    let ghost mut w: nat = 0;
    proof {
        assert(out@.subrange(0, start.len() as int) =~= start);
    }
    while i < total
        invariant
            total == lines@.len(),
            char_vecs_view(lines@) == lv,
            lv == lines_spec(text@),
            line_start + lv.len() <= u32::MAX,
            i <= total,
            i as nat == (if 200 * w <= total { 200 * w } else { total as nat }),
            i < total ==> i == 200 * w,
            w <= window_count(total as nat),
            i == total ==> w == window_count(total as nat),
            window_start == line_start + i,
            out@.len() == start.len() + w,
            out@.subrange(0, start.len() as int) == start,
            forall|k: int|
                0 <= k < w ==> code_chunk_built(
                    #[trigger] out@[start.len() + k],
                    doc.doc_id@,
                    chunker_version@,
                    ph@,
                    seq![],
                    window_text(lv, k as nat),
                    (line_start + 200 * k) as u32,
                    (line_start + window_end(lv.len(), k as nat) - 1) as u32,
                    Some(symbol@),
                    Some(lang@),
                    Some((line_start + 200 * k) as u32),
                ),
        decreases total - i,
    {
        let take: usize = if total - i < 200 {
            total - i
        } else {
            200
        };
        let joined = join_lines(&lines, i, i + take);
        let window_text_s = string_from_chars(&joined);
        let window_end_line: u32 = window_start + take as u32 - 1;
        proof {
            assert(window_end(total as nat, w) == i + take);
            assert(window_text_s@ == window_text(lv, w));
        }
        let c = build_chunk(
            doc,
            chunker_version,
            ph.as_str(),
            window_text_s.as_str(),
            window_start,
            window_end_line,
            symbol,
            lang,
            Some(window_start),
        );
        let ghost old_out = out@;
        out.push(c);
        proof {
            assert(out@.subrange(0, start.len() as int) =~= start) by {
                assert(old_out.subrange(0, start.len() as int) == start);
            }
            assert forall|k: int| 0 <= k < w + 1 implies code_chunk_built(
                #[trigger] out@[start.len() + k],
                doc.doc_id@,
                chunker_version@,
                ph@,
                seq![],
                window_text(lv, k as nat),
                (line_start + 200 * k) as u32,
                (line_start + window_end(lv.len(), k as nat) - 1) as u32,
                Some(symbol@),
                Some(lang@),
                Some((line_start + 200 * k) as u32),
            ) by {
                if k < w {
                    assert(out@[start.len() + k] == old_out[start.len() + k]);
                }
            }
        }
        i = i + take;
        window_start = window_end_line + 1;
        proof {
            w = w + 1;
        }
    }
    proof {
        let added = out@.subrange(start.len() as int, out@.len() as int);
        assert forall|k: int| 0 <= k < added.len() implies code_chunk_built(
            #[trigger] added[k],
            doc.doc_id@,
            chunker_version@,
            ph@,
            seq![],
            window_text(lv, k as nat),
            (line_start + 200 * k) as u32,
            (line_start + window_end(lv.len(), k as nat) - 1) as u32,
            Some(symbol@),
            Some(lang@),
            Some((line_start + 200 * k) as u32),
        ) by {
            assert(added[k] == out@[start.len() + k]);
        }
    }
}


/// No line of `str::lines` holds a `\n`.
pub proof fn lemma_lines_no_newline(s: Seq<char>)
    ensures
        forall|i: int| 0 <= i < lines_spec(s).len() ==> !(#[trigger] lines_spec(s)[i]).contains('\n'),
{
    let parts = split_on(s, '\n');
    crate::text::lemma_split_fold_join(s, '\n');
    let ls = lines_spec(s);
    assert forall|i: int| 0 <= i < ls.len() implies !(#[trigger] ls[i]).contains('\n') by {
        let p = parts[i];
        assert(!p.contains('\n'));
        if i < parts.len() - 1 {
            assert(ls[i] == strip_cr(p));
            if strip_cr(p).contains('\n') {
                let k = choose|k: int| 0 <= k < strip_cr(p).len() && strip_cr(p)[k] == '\n';
                assert(p[k] == '\n');
            }
        } else {
            assert(ls[i] == parts.last());
        }
    }
}

/// Re-splitting lines joined by `\n` gives as many lines, when the last is
/// not empty.
pub proof fn lemma_lines_of_join(parts: Seq<Seq<char>>)
    requires
        parts.len() >= 1,
        parts.last().len() > 0,
        forall|i: int| 0 <= i < parts.len() ==> !(#[trigger] parts[i]).contains('\n'),
    ensures
        lines_spec(join_with(parts, seq!['\n'])).len() == parts.len(),
{
    crate::text::lemma_split_join_inverse(parts, '\n');
}

} // verus!
