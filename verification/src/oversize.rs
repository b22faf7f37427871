//! Shared oversize-chunk split primitives.
//!
//! A text whose token estimate (UTF-8 bytes / 3, rounded up) exceeds a
//! budget is decomposed into pieces that each fit the budget: whole lines
//! are packed greedily, and a single line that alone exceeds the budget is
//! cut at character boundaries.

use vstd::prelude::*;
use crate::text::{
    char_len, char_utf8_len, char_vecs_view, chars_byte_len, chars_of, concat_all, join_with,
    lemma_split_fold_join, lemma_split_no_sep, lemma_utf8_len_bounds, lemma_utf8_len_concat,
    lemma_utf8_len_single, split_chars, split_on, string_from_chars, strings_view, utf8_len,
};

verus! {

/// Bytes-per-token proxy used by every chunker for its size estimate.
pub const BYTES_PER_TOKEN: usize = 3;

/// Token estimate of a text of `bytes` UTF-8 bytes: `bytes / 3`, rounded up.
pub open spec fn est_tokens(bytes: nat) -> nat {
    if bytes % 3 == 0 {
        bytes / 3
    } else {
        bytes / 3 + 1
    }
}

/// The effective budget: a zero budget is treated as one token.
pub open spec fn effective_budget(budget: nat) -> nat {
    if budget == 0 {
        1
    } else {
        budget
    }
}

/// Greedy character packing: a character joins the piece in progress
/// unless that piece is non-empty and would then exceed `byte_budget`.
pub open spec fn char_pieces_fold(s: Seq<char>, byte_budget: nat) -> (Seq<Seq<char>>, Seq<char>)
    decreases s.len(),
{
    if s.len() == 0 {
        (seq![], seq![])
    } else {
        let (done, cur) = char_pieces_fold(s.drop_last(), byte_budget);
        let c = s.last();
        if cur.len() > 0 && utf8_len(cur) + char_utf8_len(c) > byte_budget {
            (done.push(cur), seq![c])
        } else {
            (done, cur.push(c))
        }
    }
}

/// The pieces `char_pieces` returns for `s` and `budget`.
pub open spec fn char_pieces_spec(s: Seq<char>, budget: nat) -> Seq<Seq<char>> {
    let (done, cur) = char_pieces_fold(s, budget * 3);
    done.push(cur)
}

/// Greedy line packing over `lines` with effective budget `b`: the pieces
/// finished so far and the piece in progress (lines joined by `\n`).
pub open spec fn line_pack_fold(lines: Seq<Seq<char>>, b: nat) -> (Seq<Seq<char>>, Option<Seq<char>>)
    decreases lines.len(),
{
    if lines.len() == 0 {
        (seq![], None)
    } else {
        let (done, cur) = line_pack_fold(lines.drop_last(), b);
        let line = lines.last();
        if utf8_len(line) > 3 * b {
            let flushed = match cur {
                Some(c) => done.push(c),
                None => done,
            };
            (flushed + char_pieces_spec(line, b), None)
        } else {
            match cur {
                Some(c) => if utf8_len(c) + 1 + utf8_len(line) > 3 * b {
                    (done.push(c), Some(line))
                } else {
                    (done, Some(c + seq!['\n'] + line))
                },
                None => (done, Some(line)),
            }
        }
    }
}

/// The pieces `text_pieces` returns for `text` and `budget`.
pub open spec fn text_pieces_spec(text: Seq<char>, budget: nat) -> Seq<Seq<char>> {
    let (done, cur) = line_pack_fold(split_on(text, '\n'), effective_budget(budget));
    let r = match cur {
        Some(c) => done.push(c),
        None => done,
    };
    if r.len() == 0 {
        seq![seq![]]
    } else {
        r
    }
}

/// A piece fits `b` tokens, or is a single character (a character wider
/// than the whole byte budget can only stand alone).
pub open spec fn piece_fits(p: Seq<char>, b: nat) -> bool {
    utf8_len(p) <= 3 * b || p.len() == 1
}

proof fn lemma_char_pieces_fold(s: Seq<char>, bb: nat)
    ensures
        ({
            let (done, cur) = char_pieces_fold(s, bb);
            &&& concat_all(done) + cur == s
            &&& forall|i: int|
                0 <= i < done.len() ==> (utf8_len(#[trigger] done[i]) <= bb || done[i].len() == 1)
                    && done[i].len() > 0
            &&& (utf8_len(cur) <= bb || cur.len() == 1)
            &&& (s.len() > 0 ==> cur.len() > 0)
        }),
    decreases s.len(),
{
    if s.len() > 0 {
        lemma_char_pieces_fold(s.drop_last(), bb);
        let (done, cur) = char_pieces_fold(s.drop_last(), bb);
        let c = s.last();
        lemma_utf8_len_concat(cur, seq![c]);
        lemma_utf8_len_single(c);
        assert(cur.push(c) =~= cur + seq![c]);
        if cur.len() > 0 && utf8_len(cur) + char_utf8_len(c) > bb {
            let nd = done.push(cur);
            assert(nd.drop_last() =~= done);
            assert(concat_all(nd) == concat_all(done) + cur);
            assert(concat_all(nd) + seq![c] =~= (concat_all(done) + cur).push(c));
            assert(s.drop_last().push(c) =~= s);
            assert forall|i: int| 0 <= i < nd.len() implies (utf8_len(#[trigger] nd[i]) <= bb
                || nd[i].len() == 1) && nd[i].len() > 0 by {
                if i < done.len() {
                    assert(nd[i] == done[i]);
                }
            }
        } else {
            assert(concat_all(done) + cur.push(c) =~= (concat_all(done) + cur).push(c));
            assert(s.drop_last().push(c) =~= s);
        }
    } else {
        assert(concat_all(Seq::<Seq<char>>::empty()) + Seq::<char>::empty() =~= s);
    }
}

/// Concatenating the char pieces of `s` gives back `s`; each piece is
/// non-empty (unless `s` is) and fits the byte budget or is one character.
pub proof fn lemma_char_pieces_spec(s: Seq<char>, budget: nat)
    ensures
        concat_all(char_pieces_spec(s, budget)) == s,
        char_pieces_spec(s, budget).len() >= 1,
        forall|i: int|
            0 <= i < char_pieces_spec(s, budget).len() ==> piece_fits(
                #[trigger] char_pieces_spec(s, budget)[i],
                budget,
            ),
        s.len() > 0 ==> forall|i: int|
            0 <= i < char_pieces_spec(s, budget).len() ==> (#[trigger] char_pieces_spec(
                s,
                budget,
            )[i]).len() > 0,
{
    lemma_char_pieces_fold(s, budget * 3);
    let (done, cur) = char_pieces_fold(s, budget * 3);
    let r = done.push(cur);
    assert(r.drop_last() =~= done);
    assert forall|i: int| 0 <= i < r.len() implies piece_fits(#[trigger] r[i], budget) by {
        if i < done.len() {
            assert(r[i] == done[i]);
        }
    }
    if s.len() > 0 {
        assert forall|i: int| 0 <= i < r.len() implies (#[trigger] r[i]).len() > 0 by {
            if i < done.len() {
                assert(r[i] == done[i]);
            }
        }
    }
}

/// Every piece of the line packing fits the budget (or is one character).
proof fn lemma_line_pack_fits(lines: Seq<Seq<char>>, b: nat)
    ensures
        ({
            let (done, cur) = line_pack_fold(lines, b);
            &&& forall|i: int| 0 <= i < done.len() ==> piece_fits(#[trigger] done[i], b)
            &&& (cur matches Some(c) ==> utf8_len(c) <= 3 * b)
        }),
    decreases lines.len(),
{
    if lines.len() > 0 {
        lemma_line_pack_fits(lines.drop_last(), b);
        let (done, cur) = line_pack_fold(lines.drop_last(), b);
        let line = lines.last();
        if utf8_len(line) > 3 * b {
            let flushed = match cur {
                Some(c) => done.push(c),
                None => done,
            };
            assert forall|i: int| 0 <= i < flushed.len() implies piece_fits(
                #[trigger] flushed[i],
                b,
            ) by {
                if i < done.len() {
                    assert(flushed[i] == done[i]);
                }
            }
            lemma_char_pieces_spec(line, b);
            let cp = char_pieces_spec(line, b);
            let nd = flushed + cp;
            assert forall|i: int| 0 <= i < nd.len() implies piece_fits(#[trigger] nd[i], b) by {
                if i < flushed.len() {
                    assert(nd[i] == flushed[i]);
                } else {
                    assert(nd[i] == cp[i - flushed.len()]);
                }
            }
        } else {
            match cur {
                Some(c) => {
                    let nd = done.push(c);
                    assert forall|i: int| 0 <= i < nd.len() implies piece_fits(
                        #[trigger] nd[i],
                        b,
                    ) by {
                        if i < done.len() {
                            assert(nd[i] == done[i]);
                        }
                    }
                    lemma_utf8_len_concat(c, seq!['\n']);
                    lemma_utf8_len_single('\n');
                    lemma_utf8_len_concat(c + seq!['\n'], line);
                },
                None => {},
            }
        }
    }
}

/// Every line of `lines` fits `b` tokens.
pub open spec fn all_lines_fit(lines: Seq<Seq<char>>, b: nat) -> bool {
    forall|i: int| 0 <= i < lines.len() ==> utf8_len(#[trigger] lines[i]) <= 3 * b
}

/// When every line fits, joining the packed pieces with `\n` gives back
/// the lines joined with `\n`.
proof fn lemma_line_pack_join(lines: Seq<Seq<char>>, b: nat)
    requires
        all_lines_fit(lines, b),
    ensures
        ({
            let (done, cur) = line_pack_fold(lines, b);
            &&& (lines.len() > 0 <==> cur is Some)
            &&& (cur matches Some(c) ==> join_with(done.push(c), seq!['\n']) == join_with(
                lines,
                seq!['\n'],
            ))
        }),
    decreases lines.len(),
{
    if lines.len() > 0 {
        let pre = lines.drop_last();
        assert(all_lines_fit(pre, b)) by {
            assert forall|i: int| 0 <= i < pre.len() implies utf8_len(#[trigger] pre[i]) <= 3
                * b by {
                assert(pre[i] == lines[i]);
            }
        }
        lemma_line_pack_join(pre, b);
        let (done, cur) = line_pack_fold(pre, b);
        let line = lines.last();
        assert(utf8_len(line) <= 3 * b) by {
            assert(lines[lines.len() - 1] == line);
        }
        assert(lines =~= pre.push(line));
        match cur {
            Some(c) => {
                // join(lines) == join(pre) + "\n" + line == join(done.push(c)) + "\n" + line
                assert(join_with(lines, seq!['\n']) == join_with(pre, seq!['\n']) + seq!['\n']
                    + line);
                if utf8_len(c) + 1 + utf8_len(line) > 3 * b {
                    let nd = done.push(c);
                    assert(nd.push(line).drop_last() =~= nd);
                } else {
                    let np = done.push(c + seq!['\n'] + line);
                    assert(np.drop_last() =~= done);
                    if done.len() == 0 {
                        assert(join_with(done.push(c), seq!['\n']) == c);
                        assert(join_with(np, seq!['\n']) == c + seq!['\n'] + line);
                    } else {
                        assert(done.push(c).drop_last() =~= done);
                        assert(join_with(done.push(c), seq!['\n']) == join_with(done, seq!['\n'])
                            + seq!['\n'] + c);
                        assert(join_with(np, seq!['\n']) == join_with(done, seq!['\n'])
                            + seq!['\n'] + (c + seq!['\n'] + line));
                        assert(join_with(done, seq!['\n']) + seq!['\n'] + (c + seq!['\n'] + line)
                            =~= join_with(done, seq!['\n']) + seq!['\n'] + c + seq!['\n']
                            + line);
                    }
                }
            },
            None => {
                assert(pre.len() == 0);
                assert(done.len() == 0) by {
                    lemma_line_pack_empty(pre, b);
                }
                assert(done.push(line) =~= seq![line]);
                assert(lines =~= seq![line]);
            },
        }
    }
}

proof fn lemma_line_pack_empty(lines: Seq<Seq<char>>, b: nat)
    requires
        lines.len() == 0,
    ensures
        line_pack_fold(lines, b).0.len() == 0,
{
}

/// Laws of `text_pieces`: at least one piece; every piece fits the budget
/// (or is a single character); a text whose lines all fit comes back from
/// joining the pieces with `\n`; a text without `\n` comes back from
/// concatenating the pieces.
pub proof fn lemma_text_pieces_laws(text: Seq<char>, budget: nat)
    ensures
        text_pieces_spec(text, budget).len() >= 1,
        forall|i: int|
            0 <= i < text_pieces_spec(text, budget).len() ==> piece_fits(
                #[trigger] text_pieces_spec(text, budget)[i],
                effective_budget(budget),
            ),
        all_lines_fit(split_on(text, '\n'), effective_budget(budget)) ==> join_with(
            text_pieces_spec(text, budget),
            seq!['\n'],
        ) == text,
        !text.contains('\n') ==> concat_all(text_pieces_spec(text, budget)) == text,
{
    let b = effective_budget(budget);
    let lines = split_on(text, '\n');
    lemma_line_pack_fits(lines, b);
    let (done, cur) = line_pack_fold(lines, b);
    let r = match cur {
        Some(c) => done.push(c),
        None => done,
    };
    assert forall|i: int| 0 <= i < r.len() implies piece_fits(#[trigger] r[i], b) by {
        if i < done.len() {
            assert(r[i] == done[i]);
        }
    }
    // r is never empty: the split has at least one line.
    lemma_line_pack_nonempty(lines, b);
    assert(r.len() >= 1);
    assert(text_pieces_spec(text, budget) == r);
    lemma_split_fold_join(text, '\n');
    if all_lines_fit(lines, b) {
        lemma_line_pack_join(lines, b);
    }
    if !text.contains('\n') {
        lemma_split_no_sep(text, '\n');
        assert(lines == seq![text]);
        assert(lines.drop_last() =~= Seq::<Seq<char>>::empty());
        assert(lines.last() == text);
        let (d0, c0) = line_pack_fold(lines.drop_last(), b);
        assert(d0.len() == 0);
        assert(c0 is None);
        if utf8_len(text) > 3 * b {
            lemma_char_pieces_spec(text, b);
            assert(d0 + char_pieces_spec(text, b) =~= char_pieces_spec(text, b));
        } else {
            assert(r =~= seq![text]);
            assert(seq![text].drop_last() =~= Seq::<Seq<char>>::empty());
            assert(concat_all(Seq::<Seq<char>>::empty()) == Seq::<char>::empty());
            assert(concat_all(seq![text]) =~= text);
        }
    }
}

proof fn lemma_line_pack_nonempty(lines: Seq<Seq<char>>, b: nat)
    requires
        lines.len() > 0,
    ensures
        line_pack_fold(lines, b).1 is Some || line_pack_fold(lines, b).0.len() > 0,
{
    let (done, cur) = line_pack_fold(lines.drop_last(), b);
    let line = lines.last();
    if utf8_len(line) > 3 * b {
        lemma_char_pieces_spec(line, b);
    }
}

/// Char-split a newline-free text into pieces of at most `budget * 3`
/// bytes each (a single character wider than that stands alone), cutting
/// at character boundaries. Returns at least one piece; concatenating the
/// pieces reconstructs `s`.
pub fn char_pieces(s: &str, budget: usize) -> (res: Vec<String>)
    requires
        budget * 3 <= usize::MAX,
    ensures
        strings_view(res@) == char_pieces_spec(s@, budget as nat),
        concat_all(strings_view(res@)) == s@,
        res@.len() >= 1,
        forall|i: int| 0 <= i < res@.len() ==> piece_fits((#[trigger] res@[i])@, budget as nat),
{
    let chars = chars_of(s);
    let res = char_pieces_of(&chars, budget);
    proof {
        lemma_char_pieces_spec(s@, budget as nat);
        assert forall|i: int| 0 <= i < res@.len() implies piece_fits(
            (#[trigger] res@[i])@,
            budget as nat,
        ) by {
            assert(strings_view(res@)[i] == res@[i]@);
        }
    }
    res
}

fn char_pieces_of(chars: &Vec<char>, budget: usize) -> (res: Vec<String>)
    ensures
        strings_view(res@) == char_pieces_spec(chars@, budget as nat),
{
    let byte_budget: u128 = (budget as u128) * 3;
    let mut result: Vec<String> = Vec::new();
    let mut cur: Vec<char> = Vec::new();
    let mut cur_bytes: u128 = 0;
    let mut i: usize = 0;
    while i < chars.len()
        invariant
            i <= chars.len(),
            byte_budget == budget as nat * 3,
            (strings_view(result@), cur@) == char_pieces_fold(chars@.take(i as int), byte_budget as nat),
            cur_bytes as nat == utf8_len(cur@),
            cur_bytes <= 4 * i,
            cur.len() <= i,
        decreases chars.len() - i,
    {
        let c = chars[i];
        let n = char_len(c);
        proof {
            assert(chars@.take(i + 1).drop_last() =~= chars@.take(i as int));
            assert(chars@.take(i + 1).last() == c);
            lemma_utf8_len_concat(cur@, seq![c]);
            lemma_utf8_len_single(c);
            assert(cur@.push(c) =~= cur@ + seq![c]);
        }
        if cur.len() > 0 && cur_bytes + n as u128 > byte_budget {
            let piece = string_from_chars(&cur);
            let ghost old_result = result@;
            result.push(piece);
            proof {
                assert(strings_view(result@) =~= strings_view(old_result).push(cur@));
            }
            cur = Vec::new();
            cur.push(c);
            cur_bytes = n as u128;
            proof {
                assert(cur@ =~= seq![c]);
            }
        } else {
            cur.push(c);
            cur_bytes = cur_bytes + n as u128;
        }
        i = i + 1;
    }
    proof {
        assert(chars@.take(chars.len() as int) =~= chars@);
    }
    let piece = string_from_chars(&cur);
    let ghost old_result = result@;
    result.push(piece);
    proof {
        assert(strings_view(result@) =~= strings_view(old_result).push(cur@));
    }
    result
}

/// Decompose `text` into pieces each with a token estimate of at most
/// `max(budget, 1)`: whole lines are packed greedily (joined by `\n`), and a
/// line that alone exceeds the budget is char-split. Returns at least one
/// piece. When every line fits, joining the pieces with `\n` reconstructs
/// `text`; a newline-free text is reconstructed by plain concatenation.
pub fn text_pieces(text: &str, budget: usize) -> (res: Vec<String>)
    ensures
        strings_view(res@) == text_pieces_spec(text@, budget as nat),
        res@.len() >= 1,
        forall|i: int|
            0 <= i < res@.len() ==> piece_fits(
                (#[trigger] res@[i])@,
                effective_budget(budget as nat),
            ),
        all_lines_fit(split_on(text@, '\n'), effective_budget(budget as nat)) ==> join_with(
            strings_view(res@),
            seq!['\n'],
        ) == text@,
        !text@.contains('\n') ==> concat_all(strings_view(res@)) == text@,
{
    let b: usize = if budget == 0 {
        1
    } else {
        budget
    };
    let chars = chars_of(text);
    let lines = split_chars(&chars, '\n');
    let ghost lines_view = char_vecs_view(lines@);
    let three_b: u128 = (b as u128) * 3;
    let mut result: Vec<String> = Vec::new();
    let mut cur: Option<Vec<char>> = None;
    let mut cur_bytes: u128 = 0;
    let mut i: usize = 0;
    while i < lines.len()
        invariant
            i <= lines.len(),
            lines_view == char_vecs_view(lines@),
            lines_view == split_on(text@, '\n'),
            b as nat == effective_budget(budget as nat),
            three_b == 3 * b,
            cur_bytes <= three_b,
            ({
                let (done, c) = line_pack_fold(lines_view.take(i as int), b as nat);
                &&& strings_view(result@) == done
                &&& (match cur {
                    Some(v) => c == Some(v@) && cur_bytes as nat == utf8_len(v@),
                    None => c is None,
                })
            }),
        decreases lines.len() - i,
    {
        let line = &lines[i];
        let line_bytes = chars_byte_len(line);
        proof {
            assert(lines_view.take(i + 1).drop_last() =~= lines_view.take(i as int));
            assert(lines_view.take(i + 1).last() == line@);
            lemma_utf8_len_bounds(line@);
        }
        if line_bytes > three_b {
            match cur {
                Some(v) => {
                    let piece = string_from_chars(&v);
                    let ghost old_result = result@;
                    result.push(piece);
                    proof {
                        assert(strings_view(result@) =~= strings_view(old_result).push(v@));
                    }
                },
                None => {},
            }
            cur = None;
            cur_bytes = 0;
            let pieces = char_pieces_of(line, b);
            let ghost before = result@;
            let mut k: usize = 0;
            while k < pieces.len()
                invariant
                    k <= pieces.len(),
                    strings_view(result@) == strings_view(before) + strings_view(
                        pieces@,
                    ).take(k as int),
                decreases pieces.len() - k,
            {
                let p = pieces[k].clone();
                let ghost old_result = result@;
                result.push(p);
                proof {
                    assert(strings_view(pieces@)[k as int] == p@);
                    assert(strings_view(pieces@).take(k + 1) =~= strings_view(pieces@).take(
                        k as int,
                    ).push(p@));
                    assert(strings_view(result@) =~= strings_view(old_result).push(p@));
                    assert(strings_view(result@) =~= strings_view(before) + strings_view(
                        pieces@,
                    ).take(k + 1));
                }
                k = k + 1;
            }
            proof {
                assert(strings_view(pieces@).take(pieces@.len() as int) =~= strings_view(pieces@));
            }
        } else {
            let taken = cur;
            match taken {
                Some(v) => {
                    if cur_bytes + 1 + line_bytes > three_b {
                        let piece = string_from_chars(&v);
                        let ghost old_result = result@;
                        result.push(piece);
                        proof {
                            assert(strings_view(result@) =~= strings_view(old_result).push(v@));
                        }
                        cur = Some(line.clone());
                        cur_bytes = line_bytes;
                    } else {
                        let mut joined = v;
                        let ghost jv = joined@;
                        joined.push('\n');
                        let mut k: usize = 0;
                        while k < line.len()
                            invariant
                                k <= line.len(),
                                joined@ == jv + seq!['\n'] + line@.take(k as int),
                            decreases line.len() - k,
                        {
                            joined.push(line[k]);
                            proof {
                                assert(line@.take(k + 1) =~= line@.take(k as int).push(line@[k as int]));
                            }
                            k = k + 1;
                        }
                        proof {
                            assert(line@.take(line.len() as int) =~= line@);
                            lemma_utf8_len_concat(jv, seq!['\n']);
                            lemma_utf8_len_single('\n');
                            lemma_utf8_len_concat(jv + seq!['\n'], line@);
                        }
                        cur = Some(joined);
                        cur_bytes = cur_bytes + 1 + line_bytes;
                    }
                },
                None => {
                    cur = Some(line.clone());
                    cur_bytes = line_bytes;
                },
            }
        }
        i = i + 1;
    }
    proof {
        assert(lines_view.take(lines.len() as int) =~= lines_view);
    }
    match cur {
        Some(v) => {
            let piece = string_from_chars(&v);
            let ghost old_result = result@;
            result.push(piece);
            proof {
                assert(strings_view(result@) =~= strings_view(old_result).push(v@));
            }
        },
        None => {},
    }
    if result.len() == 0 {
        result.push(String::new());
        proof {
            assert(strings_view(result@) =~= seq![Seq::<char>::empty()]);
        }
    }
    proof {
        lemma_text_pieces_laws(text@, budget as nat);
        assert forall|i: int| 0 <= i < res_len(&result) implies piece_fits(
            (#[trigger] result@[i])@,
            effective_budget(budget as nat),
        ) by {
            assert(strings_view(result@)[i] == result@[i]@);
        }
    }
    result
}

spec fn res_len(v: &Vec<String>) -> int {
    v@.len() as int
}

} // verus!
