//! Character-level string model shared by the chunkers.
//!
//! Strings are reasoned about through their `Seq<char>` view; byte lengths
//! are the UTF-8 encoded lengths of those characters.

use vstd::prelude::*;
use vstd::utf8::*;

verus! {

broadcast use vstd::utf8::char_is_scalar;

/// Number of UTF-8 bytes that encode `c`.
pub open spec fn char_utf8_len(c: char) -> nat {
    if (c as u32) < 0x80 {
        1
    } else if (c as u32) < 0x800 {
        2
    } else if (c as u32) < 0x10000 {
        3
    } else {
        4
    }
}

/// Number of UTF-8 bytes that encode the character sequence `s`.
pub open spec fn utf8_len(s: Seq<char>) -> nat
    decreases s.len(),
{
    if s.len() == 0 {
        0
    } else {
        utf8_len(s.drop_last()) + char_utf8_len(s.last())
    }
}

/// Concatenation of `parts` with `sep` placed between consecutive parts.
pub open spec fn join_with(parts: Seq<Seq<char>>, sep: Seq<char>) -> Seq<char>
    decreases parts.len(),
{
    if parts.len() == 0 {
        seq![]
    } else if parts.len() == 1 {
        parts[0]
    } else {
        join_with(parts.drop_last(), sep) + sep + parts.last()
    }
}

/// Direct concatenation of `parts`.
pub open spec fn concat_all(parts: Seq<Seq<char>>) -> Seq<char>
    decreases parts.len(),
{
    if parts.len() == 0 {
        seq![]
    } else {
        concat_all(parts.drop_last()) + parts.last()
    }
}

/// Left-to-right split state: the finished parts and the part in progress.
pub open spec fn split_fold(s: Seq<char>, sep: char) -> (Seq<Seq<char>>, Seq<char>)
    decreases s.len(),
{
    if s.len() == 0 {
        (seq![], seq![])
    } else {
        let (done, cur) = split_fold(s.drop_last(), sep);
        if s.last() == sep {
            (done.push(cur), seq![])
        } else {
            (done, cur.push(s.last()))
        }
    }
}

/// `s` split at every occurrence of `sep` (the separators are dropped).
/// A string with `k` separators has `k + 1` parts, possibly empty.
pub open spec fn split_on(s: Seq<char>, sep: char) -> Seq<Seq<char>> {
    let (done, cur) = split_fold(s, sep);
    done.push(cur)
}

/// The view of each string of a vector.
pub open spec fn strings_view(v: Seq<String>) -> Seq<Seq<char>> {
    v.map_values(|s: String| s@)
}

/// The view of each character vector of a vector.
pub open spec fn char_vecs_view(v: Seq<Vec<char>>) -> Seq<Seq<char>> {
    v.map_values(|s: Vec<char>| s@)
}

pub proof fn lemma_utf8_len_concat(a: Seq<char>, b: Seq<char>)
    ensures
        utf8_len(a + b) == utf8_len(a) + utf8_len(b),
    decreases b.len(),
{
    if b.len() == 0 {
        assert(a + b =~= a);
    } else {
        lemma_utf8_len_concat(a, b.drop_last());
        assert((a + b).drop_last() =~= a + b.drop_last());
    }
}

pub proof fn lemma_utf8_len_single(c: char)
    ensures
        utf8_len(seq![c]) == char_utf8_len(c),
{
    assert(seq![c].drop_last() =~= Seq::<char>::empty());
    assert(utf8_len(Seq::<char>::empty()) == 0);
    assert(seq![c].last() == c);
}

pub proof fn lemma_utf8_len_bounds(s: Seq<char>)
    ensures
        s.len() <= utf8_len(s) <= 4 * s.len(),
    decreases s.len(),
{
    if s.len() > 0 {
        lemma_utf8_len_bounds(s.drop_last());
    }
}

/// The byte length this model uses is the length of the UTF-8 encoding.
pub proof fn lemma_encode_utf8_len(s: Seq<char>)
    ensures
        encode_utf8(s).len() == utf8_len(s),
    decreases s.len(),
{
    if s.len() > 0 {
        lemma_encode_utf8_len(s.drop_first());
        lemma_utf8_len_concat(seq![s[0]], s.drop_first());
        assert(seq![s[0]] + s.drop_first() =~= s);
        lemma_utf8_len_single(s[0]);
        vstd::utf8::char_is_scalar(s[0]);
    }
}

pub proof fn lemma_join_push(parts: Seq<Seq<char>>, sep: Seq<char>, x: char)
    requires
        parts.len() > 0,
    ensures
        join_with(parts.drop_last().push(parts.last().push(x)), sep) == join_with(parts, sep).push(x),
{
    let p2 = parts.drop_last().push(parts.last().push(x));
    assert(p2.drop_last() =~= parts.drop_last());
    if parts.len() == 1 {
        assert(p2[0] == parts[0].push(x));
    } else {
        assert(join_with(p2, sep) == join_with(parts.drop_last(), sep) + sep + parts.last().push(x));
        assert(join_with(parts.drop_last(), sep) + sep + parts.last().push(x) =~= (join_with(
            parts.drop_last(),
            sep,
        ) + sep + parts.last()).push(x));
    }
}

pub proof fn lemma_split_fold_join(s: Seq<char>, sep: char)
    ensures
        join_with(split_on(s, sep), seq![sep]) == s,
        forall|i: int|
            0 <= i < split_on(s, sep).len() ==> !(#[trigger] split_on(s, sep)[i]).contains(sep),
    decreases s.len(),
{
    if s.len() > 0 {
        let (done, cur) = split_fold(s.drop_last(), sep);
        lemma_split_fold_join(s.drop_last(), sep);
        let parts = done.push(cur);
        assert(split_on(s.drop_last(), sep) == parts);
        if s.last() == sep {
            let np = done.push(cur).push(Seq::<char>::empty());
            assert(split_on(s, sep) == np);
            assert(np.drop_last() =~= parts);
            assert(join_with(np, seq![sep]) == join_with(parts, seq![sep]) + seq![sep] + seq![]);
            assert(join_with(parts, seq![sep]) + seq![sep] + Seq::<char>::empty() =~= s);
            assert forall|i: int| 0 <= i < np.len() implies !(#[trigger] np[i]).contains(sep) by {
                if i < np.len() - 1 {
                    assert(np[i] == parts[i]);
                    assert(split_on(s.drop_last(), sep)[i] == parts[i]);
                }
            }
        } else {
            let np = done.push(cur.push(s.last()));
            assert(split_on(s, sep) == np);
            assert(parts.drop_last() =~= done);
            assert(np =~= parts.drop_last().push(parts.last().push(s.last())));
            lemma_join_push(parts, seq![sep], s.last());
            assert(s.drop_last().push(s.last()) =~= s);
            assert forall|i: int| 0 <= i < np.len() implies !(#[trigger] np[i]).contains(sep) by {
                if i < np.len() - 1 {
                    assert(np[i] == parts[i]);
                    assert(split_on(s.drop_last(), sep)[i] == parts[i]);
                } else {
                    assert(split_on(s.drop_last(), sep)[i] == cur);
                    assert(!cur.contains(sep));
                    if np[i].contains(sep) {
                        let k = choose|k: int| 0 <= k < np[i].len() && np[i][k] == sep;
                        if k < cur.len() {
                            assert(cur[k] == sep);
                        }
                    }
                }
            }
        }
    } else {
        assert(split_on(s, sep) =~= seq![Seq::<char>::empty()]);
    }
}

proof fn lemma_split_fold_after_sep(s: Seq<char>, sep: char, y: Seq<char>)
    requires
        !y.contains(sep),
    ensures
        split_fold(s + seq![sep] + y, sep) == (split_on(s, sep), y),
    decreases y.len(),
{
    let t = s + seq![sep] + y;
    if y.len() == 0 {
        assert(t =~= s.push(sep));
        assert(t.drop_last() =~= s);
    } else {
        assert(!y.drop_last().contains(sep)) by {
            if y.drop_last().contains(sep) {
                let k = choose|k: int| 0 <= k < y.drop_last().len() && y.drop_last()[k] == sep;
                assert(y[k] == sep);
            }
        }
        lemma_split_fold_after_sep(s, sep, y.drop_last());
        assert(t.drop_last() =~= s + seq![sep] + y.drop_last());
        assert(t.last() == y.last());
        assert(y.last() != sep) by {
            assert(y[y.len() - 1] == y.last());
        }
        assert(y.drop_last().push(y.last()) =~= y);
    }
}

/// Splitting the `sep`-join of parts that hold no `sep` gives the parts.
pub proof fn lemma_split_join_inverse(parts: Seq<Seq<char>>, sep: char)
    requires
        parts.len() >= 1,
        forall|i: int| 0 <= i < parts.len() ==> !(#[trigger] parts[i]).contains(sep),
    ensures
        split_on(join_with(parts, seq![sep]), sep) == parts,
    decreases parts.len(),
{
    if parts.len() == 1 {
        assert(!parts[0].contains(sep));
        lemma_split_no_sep(parts[0], sep);
        assert(parts =~= seq![parts[0]]);
    } else {
        let init = parts.drop_last();
        assert forall|i: int| 0 <= i < init.len() implies !(#[trigger] init[i]).contains(sep) by {
            assert(init[i] == parts[i]);
        }
        lemma_split_join_inverse(init, sep);
        assert(!parts.last().contains(sep)) by {
            assert(parts[parts.len() - 1] == parts.last());
        }
        lemma_split_fold_after_sep(join_with(init, seq![sep]), sep, parts.last());
        assert(join_with(parts, seq![sep]) == join_with(init, seq![sep]) + seq![sep] + parts.last());
        assert(init.push(parts.last()) =~= parts);
    }
}

/// A text without `sep` splits into itself.
pub proof fn lemma_split_no_sep(s: Seq<char>, sep: char)
    requires
        !s.contains(sep),
    ensures
        split_on(s, sep) == seq![s],
    decreases s.len(),
{
    if s.len() > 0 {
        assert(!s.drop_last().contains(sep)) by {
            if s.drop_last().contains(sep) {
                let k = choose|k: int| 0 <= k < s.drop_last().len() && s.drop_last()[k] == sep;
                assert(s[k] == sep);
            }
        }
        lemma_split_no_sep(s.drop_last(), sep);
        assert(s.last() != sep) by {
            assert(s[s.len() - 1] == s.last());
        }
        let (done, cur) = split_fold(s.drop_last(), sep);
        assert(done.push(cur) == seq![s.drop_last()]);
        assert(done.push(cur).len() == 1);
        assert(done.len() == 0);
        assert(cur == done.push(cur)[0]);
        assert(s.drop_last().push(s.last()) =~= s);
        assert(split_fold(s, sep) == (done, cur.push(s.last())));
        assert(split_on(s, sep) =~= seq![s]);
    } else {
        assert(s =~= Seq::<char>::empty());
        assert(split_on(s, sep) =~= seq![s]);
    }
}

/// UTF-8 length of `c`, computed.
pub fn char_len(c: char) -> (n: u8)
    ensures
        n as nat == char_utf8_len(c),
        1 <= n <= 4,
{
    let u = c as u32;
    if u < 0x80 {
        1
    } else if u < 0x800 {
        2
    } else if u < 0x10000 {
        3
    } else {
        4
    }
}

/// UTF-8 byte length of a character vector, computed without overflow.
pub fn chars_byte_len(v: &Vec<char>) -> (n: u128)
    ensures
        n as nat == utf8_len(v@),
{
    let mut total: u128 = 0;
    let mut i: usize = 0;
    while i < v.len()
        invariant
            i <= v.len(),
            total as nat == utf8_len(v@.take(i as int)),
            total as nat <= 4 * i,
        decreases v.len() - i,
    {
        let c = v[i];
        let n = char_len(c);
        proof {
            assert(v@.take(i + 1).drop_last() =~= v@.take(i as int));
        }
        total = total + n as u128;
        i = i + 1;
    }
    proof {
        assert(v@.take(v.len() as int) =~= v@);
    }
    total
}

/// The UTF-8 byte length of `s`.
pub fn utf8_byte_len(s: &str) -> (n: usize)
    ensures
        n as nat == utf8_len(s@),
{
    let b = s.as_bytes();
    proof {
        lemma_encode_utf8_len(s@);
    }
    b.len()
}

/// Collect the characters of `s` into a vector.
pub fn chars_of(s: &str) -> (res: Vec<char>)
    ensures
        res@ == s@,
{
    let mut out: Vec<char> = Vec::new();
    for c in it: s.chars()
        invariant
            out@ == it.seq().take(it.index() as int),
    {
        out.push(c);
    }
    out
}

/// Build a `String` from a character vector.
#[verifier::external_body]
pub(crate) fn string_from_chars(v: &Vec<char>) -> (res: String)
    ensures
        res@ == v@,
{
    v.iter().collect()
}

/// Split a character vector at every `sep` (the separators are dropped).
pub fn split_chars(v: &Vec<char>, sep: char) -> (res: Vec<Vec<char>>)
    ensures
        char_vecs_view(res@) == split_on(v@, sep),
{
    let mut done: Vec<Vec<char>> = Vec::new();
    let mut cur: Vec<char> = Vec::new();
    let mut i: usize = 0;
    while i < v.len()
        invariant
            i <= v.len(),
            (char_vecs_view(done@), cur@) == split_fold(v@.take(i as int), sep),
        decreases v.len() - i,
    {
        let c = v[i];
        proof {
            assert(v@.take(i + 1).drop_last() =~= v@.take(i as int));
            assert(v@.take(i + 1).last() == c);
        }
        if c == sep {
            let finished = cur;
            cur = Vec::new();
            let ghost old_done = done@;
            done.push(finished);
            proof {
                assert(char_vecs_view(done@) =~= char_vecs_view(old_done).push(finished@));
            }
        } else {
            cur.push(c);
        }
        i = i + 1;
    }
    proof {
        assert(v@.take(v.len() as int) =~= v@);
    }
    let ghost old_done = done@;
    done.push(cur);
    proof {
        assert(char_vecs_view(done@) =~= char_vecs_view(old_done).push(cur@));
    }
    done
}

} // verus!
