//! `code-text-paragraph-v1`: the fallback chunker for code and text files
//! without structure. The file's lines are cut into paragraphs at blank
//! (all-whitespace) lines; a paragraph of at most 80 lines is one chunk, a
//! longer one is cut into 80-line windows that overlap by 20 lines (stride
//! 60). No chunk carries a symbol; each is keyed by its first line.

use vstd::prelude::*;
use crate::flatten::{grouped, lemma_grouped_append};
use crate::hashing::{is_lower_hex, policy_hash_of, policy_hash_spec};
use crate::korean::{all_ws, is_blank};
use crate::manifest_file::{first_code_block, lang_or_empty, lang_str};
use crate::model::{Block, CanonicalDocument, Chunk, ChunkError, ChunkPolicy};
use crate::pdf_page::opt_int;
use crate::tier2::{
    build_chunk_no_symbol, code_chunk_built, join_lines, lemma_lines_no_newline, lemma_lines_of_join,
    lines_spec, text_lines,
};
use crate::text::{char_vecs_view, join_with, string_from_chars};

verus! {

/// Version label of [`CodeTextParagraphV1Chunker`].
pub open spec fn ctp_label() -> Seq<char> {
    "code-text-paragraph-v1"@
}

/// Paragraph scan over `lines[..m]`: the finished runs `(start, end)` of
/// non-blank lines (0-based, end exclusive) and the start of the run in
/// progress.
pub open spec fn para_fold(lines: Seq<Seq<char>>, m: int) -> (Seq<(int, int)>, Option<int>)
    decreases m,
{
    if m <= 0 {
        (seq![], None)
    } else {
        let (done, cur) = para_fold(lines, m - 1);
        if all_ws(lines[m - 1]) {
            match cur {
                Some(a) => (done.push((a, m - 1)), None),
                None => (done, None),
            }
        } else {
            match cur {
                Some(a) => (done, Some(a)),
                None => (done, Some(m - 1)),
            }
        }
    }
}

/// The maximal runs of non-blank lines.
pub open spec fn paragraph_runs(lines: Seq<Seq<char>>) -> Seq<(int, int)> {
    let (done, cur) = para_fold(lines, lines.len() as int);
    match cur {
        Some(a) => done.push((a, lines.len() as int)),
        None => done,
    }
}

/// A paragraph: its lines joined by `\n`, with its 1-indexed first and last
/// line numbers.
pub struct Paragraph {
    pub text: String,
    pub line_start: u32,
    pub line_end: u32,
}

/// `p` is the paragraph of run `run` of `lines`.
pub open spec fn paragraph_is(p: Paragraph, lines: Seq<Seq<char>>, run: (int, int)) -> bool {
    &&& p.text@ == join_with(lines.subrange(run.0, run.1), seq!['\n'])
    &&& p.line_start as int == run.0 + 1
    &&& p.line_end as int == run.1
}

/// Shape of the scan state after `m` lines.
pub open spec fn para_state_wf(lines: Seq<Seq<char>>, m: int, done: Seq<(int, int)>, cur: Option<int>) -> bool {
    &&& forall|j: int|
        0 <= j < done.len() ==> 0 <= (#[trigger] done[j]).0 < done[j].1 < m && all_ws(lines[done[j].1])
    &&& forall|j: int, k: int|
        #![trigger done[j], lines[k]]
        0 <= j < done.len() && done[j].0 <= k < done[j].1 ==> !all_ws(lines[k])
    &&& forall|j: int, k: int| 0 <= j < k < done.len() ==> (#[trigger] done[j]).1 < (#[trigger] done[k]).0
    &&& (cur matches Some(a) ==> {
        &&& 0 <= a < m
        &&& forall|k: int| a <= k < m ==> !all_ws(#[trigger] lines[k])
        &&& forall|j: int| 0 <= j < done.len() ==> (#[trigger] done[j]).1 < a
    })
    &&& forall|k: int|
        0 <= k < m && !all_ws(#[trigger] lines[k]) ==> (exists|j: int|
            0 <= j < done.len() && (#[trigger] done[j]).0 <= k < done[j].1) || (cur matches Some(a) && a
            <= k)
}

proof fn lemma_para_fold_wf(lines: Seq<Seq<char>>, m: int)
    requires
        0 <= m <= lines.len(),
    ensures
        para_state_wf(lines, m, para_fold(lines, m).0, para_fold(lines, m).1),
    decreases m,
{
    if m > 0 {
        lemma_para_fold_wf(lines, m - 1);
        let (done, cur) = para_fold(lines, m - 1);
        let (nd, nc) = para_fold(lines, m);
        if all_ws(lines[m - 1]) {
            if let Some(a) = cur {
                assert(nd == done.push((a, m - 1)));
                assert forall|k: int|
                    0 <= k < m && !all_ws(#[trigger] lines[k]) implies (exists|j: int|
                        0 <= j < nd.len() && (#[trigger] nd[j]).0 <= k < nd[j].1) || (nc matches Some(
                        a2,
                    ) && a2 <= k) by {
                    if a <= k {
                        assert(nd[done.len() as int].0 <= k < nd[done.len() as int].1);
                    } else {
                        let j = choose|j: int| 0 <= j < done.len() && (#[trigger] done[j]).0 <= k < done[j].1;
                        assert(nd[j] == done[j]);
                    }
                }
                assert forall|j: int, k: int| 0 <= j < k < nd.len() implies (#[trigger] nd[j]).1
                    < (#[trigger] nd[k]).0 by {
                    assert(nd[j] == done[j]);
                    if k < done.len() {
                        assert(nd[k] == done[k]);
                    }
                }
                assert forall|j: int, k: int|
                    #![trigger nd[j], lines[k]]
                    0 <= j < nd.len() && nd[j].0 <= k < nd[j].1 implies !all_ws(lines[k]) by {
                    if j < done.len() {
                        assert(nd[j] == done[j]);
                    }
                }
                assert forall|j: int| 0 <= j < nd.len() implies 0 <= (#[trigger] nd[j]).0 < nd[j].1 < m
                    && all_ws(lines[nd[j].1]) by {
                    if j < done.len() {
                        assert(nd[j] == done[j]);
                    }
                }
            } else {
                assert forall|k: int|
                    0 <= k < m && !all_ws(#[trigger] lines[k]) implies (exists|j: int|
                        0 <= j < nd.len() && (#[trigger] nd[j]).0 <= k < nd[j].1) || (nc matches Some(
                        a2,
                    ) && a2 <= k) by {
                    assert(k < m - 1);
                }
            }
        } else {
            assert forall|k: int|
                0 <= k < m && !all_ws(#[trigger] lines[k]) implies (exists|j: int|
                    0 <= j < nd.len() && (#[trigger] nd[j]).0 <= k < nd[j].1) || (nc matches Some(a2)
                    && a2 <= k) by {
                if k < m - 1 {
                } else {
                    assert(nc matches Some(a2) && a2 <= k);
                }
            }
        }
    }
}

/// The paragraph runs of a file's lines: each is a non-empty run of
/// non-blank lines, runs come in order with a blank line between any two,
/// and every non-blank line lies in one of them.
pub proof fn lemma_paragraph_runs_laws(lines: Seq<Seq<char>>)
    ensures
        forall|j: int|
            0 <= j < paragraph_runs(lines).len() ==> 0 <= (#[trigger] paragraph_runs(lines)[j]).0
                < paragraph_runs(lines)[j].1 <= lines.len(),
        forall|j: int, k: int|
            #![trigger paragraph_runs(lines)[j], lines[k]]
            0 <= j < paragraph_runs(lines).len() && paragraph_runs(lines)[j].0 <= k
                < paragraph_runs(lines)[j].1 ==> !all_ws(lines[k]),
        forall|j: int, k: int|
            0 <= j < k < paragraph_runs(lines).len() ==> (#[trigger] paragraph_runs(lines)[j]).1
                < (#[trigger] paragraph_runs(lines)[k]).0,
        forall|j: int|
            0 <= j < paragraph_runs(lines).len() - 1 ==> all_ws(
                lines[(#[trigger] paragraph_runs(lines)[j]).1],
            ),
        forall|k: int|
            0 <= k < lines.len() && !all_ws(#[trigger] lines[k]) ==> exists|j: int|
                0 <= j < paragraph_runs(lines).len() && (#[trigger] paragraph_runs(lines)[j]).0 <= k
                    < paragraph_runs(lines)[j].1,
{
    let m = lines.len() as int;
    lemma_para_fold_wf(lines, m);
    let (done, cur) = para_fold(lines, m);
    let r = paragraph_runs(lines);
    if let Some(a) = cur {
        assert(r == done.push((a, m)));
        assert forall|j: int| 0 <= j < r.len() implies 0 <= (#[trigger] r[j]).0 < r[j].1 <= lines.len() by {
            if j < done.len() {
                assert(r[j] == done[j]);
            }
        }
        assert forall|j: int, k: int|
            #![trigger r[j], lines[k]]
            0 <= j < r.len() && r[j].0 <= k < r[j].1 implies !all_ws(lines[k]) by {
            if j < done.len() {
                assert(r[j] == done[j]);
            }
        }
        assert forall|j: int, k: int| 0 <= j < k < r.len() implies (#[trigger] r[j]).1 < (#[trigger] r[k]).0 by {
            assert(r[j] == done[j]);
            if k < done.len() {
                assert(r[k] == done[k]);
            }
        }
        assert forall|j: int| 0 <= j < r.len() - 1 implies all_ws(lines[(#[trigger] r[j]).1]) by {
            assert(r[j] == done[j]);
        }
        assert forall|k: int| 0 <= k < lines.len() && !all_ws(#[trigger] lines[k]) implies exists|j: int|
            0 <= j < r.len() && (#[trigger] r[j]).0 <= k < r[j].1 by {
            if a <= k {
                assert(r[done.len() as int].0 <= k < r[done.len() as int].1);
            } else {
                let j = choose|j: int| 0 <= j < done.len() && (#[trigger] done[j]).0 <= k < done[j].1;
                assert(r[j] == done[j]);
            }
        }
    }
}

/// Cut the lines of `text` into paragraphs at blank lines.
pub fn split_paragraphs(text: &str) -> (res: Vec<Paragraph>)
    requires
        lines_spec(text@).len() <= u32::MAX,
    ensures
        res@.len() == paragraph_runs(lines_spec(text@)).len(),
        forall|j: int|
            0 <= j < res@.len() ==> paragraph_is(
                #[trigger] res@[j],
                lines_spec(text@),
                paragraph_runs(lines_spec(text@))[j],
            ),
{
    let lines = text_lines(text);
    let ghost lv = lines_spec(text@);
    let n = lines.len();
    let mut out: Vec<Paragraph> = Vec::new();
    let mut cur: Option<usize> = None;
    let mut m: usize = 0;
    while m < n
        invariant
            n == lines@.len(),
            char_vecs_view(lines@) == lv,
            lv.len() <= u32::MAX,
            m <= n,
            para_state_wf(lv, m as int, para_fold(lv, m as int).0, para_fold(lv, m as int).1),
            out@.len() == para_fold(lv, m as int).0.len(),
            forall|j: int|
                0 <= j < out@.len() ==> paragraph_is(#[trigger] out@[j], lv, para_fold(lv, m as int).0[j]),
            opt_int(cur) == para_fold(lv, m as int).1,
        decreases n - m,
    {
        proof {
            lemma_para_fold_wf(lv, m + 1);
            assert(lv[m as int] == lines@[m as int]@);
        }
        let blank = is_blank(&lines[m]);
        let ghost old_out = out@;
        if blank {
            match cur {
                Some(a) => {
                    let joined = join_lines(&lines, a, m);
                    let p = Paragraph {
                        text: string_from_chars(&joined),
                        line_start: (a + 1) as u32,
                        line_end: m as u32,
                    };
                    out.push(p);
                    cur = None;
                    proof {
                        assert forall|j: int| 0 <= j < out@.len() implies paragraph_is(
                            #[trigger] out@[j],
                            lv,
                            para_fold(lv, m + 1).0[j],
                        ) by {
                            if j < old_out.len() {
                                assert(out@[j] == old_out[j]);
                            }
                        }
                    }
                },
                None => {},
            }
        } else {
            if cur.is_none() {
                cur = Some(m);
            }
        }
        m = m + 1;
    }
    match cur {
        Some(a) => {
            let joined = join_lines(&lines, a, n);
            let p = Paragraph { text: string_from_chars(&joined), line_start: (a + 1) as u32, line_end: n as u32 };
            let ghost old_out = out@;
            out.push(p);
            proof {
                assert forall|j: int| 0 <= j < out@.len() implies paragraph_is(
                    #[trigger] out@[j],
                    lv,
                    paragraph_runs(lv)[j],
                ) by {
                    if j < old_out.len() {
                        assert(out@[j] == old_out[j]);
                    }
                }
            }
        },
        None => {},
    }
    out
}


/// Number of 80-line windows, stride 60, over `l` lines (the last window
/// is the first that reaches the end).
pub open spec fn win_count(l: nat) -> nat {
    if l <= 80 {
        1
    } else {
        ((l - 80) as nat + 59) / 60 + 1
    }
}

/// Exclusive end line (0-based) of window `k` over `l` lines.
pub open spec fn win_end(l: nat, k: nat) -> nat {
    if 60 * k + 80 <= l {
        60 * k + 80
    } else {
        l
    }
}

/// The lines of run `run` joined by `\n`.
pub open spec fn run_text(lines: Seq<Seq<char>>, run: (int, int)) -> Seq<char> {
    join_with(lines.subrange(run.0, run.1), seq!['\n'])
}

/// `c` is chunk `i` of the paragraph `text` spanning lines `ls..=le`.
pub open spec fn para_chunk_ok(
    c: Chunk,
    doc_id: Seq<char>,
    ph: Seq<char>,
    text: Seq<char>,
    ls: u32,
    le: u32,
    lang: Seq<char>,
    i: int,
) -> bool {
    if le - ls + 1 <= 80 {
        &&& i == 0
        &&& code_chunk_built(c, doc_id, ctp_label(), ph, seq![], text, ls, le, None, Some(lang), Some(ls))
    } else {
        let lines = lines_spec(text);
        let e = win_end(lines.len(), i as nat);
        code_chunk_built(
            c,
            doc_id,
            ctp_label(),
            ph,
            seq![],
            join_with(lines.subrange(60 * i, e as int), seq!['\n']),
            (ls + 60 * i) as u32,
            (ls + e - 1) as u32,
            None,
            Some(lang),
            Some((ls + 60 * i) as u32),
        )
    }
}

/// How many chunks a paragraph gives.
pub open spec fn para_count(text: Seq<char>, ls: u32, le: u32) -> nat {
    if le - ls + 1 <= 80 {
        1
    } else {
        win_count(lines_spec(text).len())
    }
}

proof fn lemma_win_count(len: nat, k: nat)
    requires
        60 * k + 80 >= len,
        k == 0 || 60 * (k - 1) + 80 < len,
    ensures
        k + 1 == win_count(len),
{
    if len > 80 {
        assert(k >= 1);
        let d = (len - 80) as nat;
        assert(60 * k - 60 < d <= 60 * k);
        assert((d + 59) / 60 == k) by (nonlinear_arith)
            requires
                60 * k - 60 < d <= 60 * k,
                k >= 1,
        ;
    } else {
        if k >= 1 {
            assert(60 * (k - 1) >= 0) by (nonlinear_arith)
                requires
                    k >= 1,
            ;
        }
    }
}

/// Append the chunks of one paragraph: one chunk of at most 80 lines, or
/// 80-line windows with stride 60.
fn push_paragraph(out: &mut Vec<Chunk>, doc: &CanonicalDocument, policy: &ChunkPolicy, para: &Paragraph, lang: &str)
    requires
        1 <= para.line_start <= para.line_end,
        para.line_start + lines_spec(para.text@).len() <= u32::MAX,
    ensures
        final(out)@.len() == old(out)@.len() + para_count(para.text@, para.line_start, para.line_end),
        final(out)@.subrange(0, old(out)@.len() as int) == old(out)@,
        forall|i: int|
            0 <= i < final(out)@.len() - old(out)@.len() ==> para_chunk_ok(
                #[trigger] final(out)@[old(out)@.len() + i],
                doc.doc_id@,
                policy_hash_spec(*policy, None),
                para.text@,
                para.line_start,
                para.line_end,
                lang@,
                i,
            ),
{
    let ghost start = out@;
    let n_lines = para.line_end - para.line_start + 1;
    if n_lines <= 80 {
        let c = build_chunk_no_symbol(
            doc,
            policy,
            para.text.as_str(),
            para.line_start,
            para.line_end,
            lang,
            "code-text-paragraph-v1",
            Some(para.line_start),
        );
        out.push(c);
        proof {
            assert(out@.subrange(0, start.len() as int) =~= start);
            assert(out@[start.len() as int] == c);
        }
        return;
    }
    let lines = text_lines(para.text.as_str());
    let ghost lv = lines_spec(para.text@);
    let len = lines.len();
    let mut i: usize = 0;
    let ghost mut k: nat = 0;
    let mut done = false;
    proof {
        assert(out@.subrange(0, start.len() as int) =~= start);
    }
    while !done
        invariant
            len == lines@.len(),
            char_vecs_view(lines@) == lv,
            lv == lines_spec(para.text@),
            para.line_start + lv.len() <= u32::MAX,
            1 <= para.line_start <= para.line_end,
            para.line_end - para.line_start + 1 > 80,
            !done ==> i == 60 * k,
            i <= len,
            !done ==> (k == 0 || 60 * (k - 1) + 80 < len),
            done ==> k == win_count(len as nat),
            out@.len() == start.len() + k,
            out@.subrange(0, start.len() as int) == start,
            forall|q: int|
                0 <= q < k ==> para_chunk_ok(
                    #[trigger] out@[start.len() + q],
                    doc.doc_id@,
                    policy_hash_spec(*policy, None),
                    para.text@,
                    para.line_start,
                    para.line_end,
                    lang@,
                    q,
                ),
        decreases (if done { 0int } else { len + 1 - i }),
    {
        let end = if len - i > 80 {
            i + 80
        } else {
            len
        };
        let joined = join_lines(&lines, i, end);
        let window_text = string_from_chars(&joined);
        let window_start: u32 = para.line_start + i as u32;
        let window_end: u32 = para.line_start + end as u32 - 1;
        proof {
            assert(win_end(len as nat, k) == end);
        }
        let c = build_chunk_no_symbol(
            doc,
            policy,
            window_text.as_str(),
            window_start,
            window_end,
            lang,
            "code-text-paragraph-v1",
            Some(window_start),
        );
        let ghost old_out = out@;
        out.push(c);
        proof {
            assert(out@.subrange(0, start.len() as int) =~= start) by {
                assert(old_out.subrange(0, start.len() as int) == start);
            }
            assert forall|q: int| 0 <= q < k + 1 implies para_chunk_ok(
                #[trigger] out@[start.len() + q],
                doc.doc_id@,
                policy_hash_spec(*policy, None),
                para.text@,
                para.line_start,
                para.line_end,
                lang@,
                q,
            ) by {
                if q < k {
                    assert(out@[start.len() + q] == old_out[start.len() + q]);
                }
            }
        }
        if end == len {
            done = true;
            proof {
                lemma_win_count(len as nat, k);
                k = k + 1;
            }
        } else {
            i = i + 60;
            proof {
                k = k + 1;
            }
        }
    }
}

/// The paragraph chunk counts of a file's lines.
pub open spec fn paragraph_counts(lines: Seq<Seq<char>>) -> Seq<nat> {
    paragraph_runs(lines).map_values(
        |r: (int, int)| para_count(run_text(lines, r), (r.0 + 1) as u32, r.1 as u32),
    )
}

/// Chunk `i` of paragraph `j` of the file's lines.
pub open spec fn ctp_chunk_ok(
    lines: Seq<Seq<char>>,
    doc_id: Seq<char>,
    ph: Seq<char>,
    lang: Seq<char>,
) -> spec_fn(int, int, Chunk) -> bool {
    |j: int, i: int, c: Chunk|
        para_chunk_ok(
            c,
            doc_id,
            ph,
            run_text(lines, paragraph_runs(lines)[j]),
            (paragraph_runs(lines)[j].0 + 1) as u32,
            paragraph_runs(lines)[j].1 as u32,
            lang,
            i,
        )
}

/// Paragraph + line-window chunker (`code-text-paragraph-v1`).
#[derive(Clone, Copy, Debug, Default)]
pub struct CodeTextParagraphV1Chunker;

impl CodeTextParagraphV1Chunker {
    pub fn chunker_version(&self) -> (res: String)
        ensures
            res@ == ctp_label(),
    {
        String::from_str("code-text-paragraph-v1")
    }

    /// First 16 hex characters of the BLAKE3 digest of the policy's
    /// canonical JSON.
    pub fn policy_hash(&self, policy: &ChunkPolicy) -> (res: String)
        ensures
            res@ == policy_hash_spec(*policy, None),
            res@.len() == 16,
            forall|i: int| 0 <= i < 16 ==> is_lower_hex(#[trigger] res@[i]),
    {
        policy_hash_of(policy, None)
    }

    /// Chunk a file by paragraphs: no chunks unless the first block is a
    /// code block; otherwise the chunks of each paragraph, in order.
    pub fn chunk(&self, doc: &CanonicalDocument, policy: &ChunkPolicy) -> (res: Result<Vec<Chunk>, ChunkError>)
        requires
            first_code_block(*doc) matches Some(cb) ==> lines_spec(cb.code@).len() < u32::MAX,
        ensures
            match first_code_block(*doc) {
                Some(cb) => res matches Ok(chunks) && grouped(
                    chunks@,
                    paragraph_counts(lines_spec(cb.code@)),
                    ctp_chunk_ok(
                        lines_spec(cb.code@),
                        doc.doc_id@,
                        policy_hash_spec(*policy, None),
                        lang_or_empty(cb.lang),
                    ),
                ),
                None => res matches Ok(chunks) && chunks@.len() == 0,
            },
    {
        if doc.blocks.len() == 0 {
            return Ok(Vec::new());
        }
        let cb = match &doc.blocks[0] {
            Block::Code(cb) => cb,
            _ => {
                return Ok(Vec::new());
            },
        };
        let text = cb.code.as_str();
        let lang = lang_str(&cb.lang);
        let paras = split_paragraphs(text);
        let ghost lv = lines_spec(text@);
        let ghost runs = paragraph_runs(lv);
        let ghost counts = paragraph_counts(lv);
        let ghost ok = ctp_chunk_ok(lv, doc.doc_id@, policy_hash_spec(*policy, None), lang@);
        proof {
            lemma_paragraph_runs_laws(lv);
            lemma_lines_no_newline(text@);
            assert(counts.take(0) =~= Seq::<nat>::empty());
            assert(grouped(Seq::<Chunk>::empty(), counts.take(0), ok));
        }
        let mut chunks: Vec<Chunk> = Vec::new();
        let mut j: usize = 0;
        while j < paras.len()
            invariant
                j <= paras@.len(),
                paras@.len() == runs.len(),
                runs == paragraph_runs(lv),
                counts == paragraph_counts(lv),
                ok == ctp_chunk_ok(lv, doc.doc_id@, policy_hash_spec(*policy, None), lang@),
                lv == lines_spec(text@),
                lv.len() < u32::MAX,
                forall|q: int| 0 <= q < paras@.len() ==> paragraph_is(#[trigger] paras@[q], lv, runs[q]),
                forall|q: int| 0 <= q < runs.len() ==> 0 <= (#[trigger] runs[q]).0 < runs[q].1 <= lv.len(),
                forall|q: int, k: int|
                    #![trigger runs[q], lv[k]]
                    0 <= q < runs.len() && runs[q].0 <= k < runs[q].1 ==> !all_ws(lv[k]),
                forall|q: int| 0 <= q < lv.len() ==> !(#[trigger] lv[q]).contains('\n'),
                grouped(chunks@, counts.take(j as int), ok),
            decreases paras@.len() - j,
        {
            let para = &paras[j];
            let ghost run = runs[j as int];
            proof {
                let parts = lv.subrange(run.0, run.1);
                assert(paragraph_is(*para, lv, run));
                assert forall|q: int| 0 <= q < parts.len() implies !(#[trigger] parts[q]).contains('\n') by {
                    assert(parts[q] == lv[run.0 + q]);
                }
                assert(!all_ws(lv[run.1 - 1]));
                assert(parts.last() == lv[run.1 - 1]);
                assert(parts.last().len() > 0);
                lemma_lines_of_join(parts);
            }
            let ghost old_chunks = chunks@;
            push_paragraph(&mut chunks, doc, policy, para, lang);
            proof {
                let added = chunks@.subrange(old_chunks.len() as int, chunks@.len() as int);
                assert forall|i: int| 0 <= i < added.len() implies ok(j as int, i, #[trigger] added[i]) by {
                    assert(added[i] == chunks@[old_chunks.len() + i]);
                }
                lemma_grouped_append(old_chunks, added, counts.take(j as int), ok);
                assert(old_chunks + added =~= chunks@);
                assert(counts.take(j as int).push(added.len()) =~= counts.take(j + 1));
            }
            j = j + 1;
        }
        proof {
            assert(counts.take(paras@.len() as int) =~= counts);
        }
        Ok(chunks)
    }
}

} // verus!
