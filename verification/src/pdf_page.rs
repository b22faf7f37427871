//! `pdf-page-v1.2`: page-aware PDF chunker.
//!
//! A PDF document is one paragraph block per page, each carrying a page
//! span. Chunks never cross a page: each chunk cites one page and a
//! character range within it.
//!
//! Tier 1 splits a page whose UTF-8 size exceeds the target at paragraph
//! breaks (`\n\n`) and sentence ends (`.`, `?`, `!` followed by
//! whitespace), gluing adjacent segments greedily up to the target, and
//! seeds each later chunk with up to the overlap budget of bytes from
//! before its segment (never reaching back past the previous chunk's
//! start). Tier 2 replaces a tier-1 chunk above the split budget by its
//! `text_pieces`; the pieces keep the segment's character range.

use vstd::prelude::*;
use crate::hashing::{chunk_id_spec, decimal, id_for_chunk, is_lower_hex, policy_hash_of, policy_hash_spec, push_decimal};
use crate::korean::{all_ws, is_blank, is_ws, is_ws_char, tokenize_korean_morphological, tokenize_korean_spec};
use crate::md_heading::strs;
use crate::md_heading_v2::{text_fits, v2_count};
use crate::model::{Block, CanonicalDocument, Chunk, ChunkError, ChunkPolicy, SourceSpan};
use crate::md_heading_v2::text_token_estimate;
use crate::oversize::{effective_budget, est_tokens, piece_fits, text_pieces, text_pieces_spec};
use crate::text::{
    char_len, char_utf8_len, chars_of, strings_view, lemma_utf8_len_concat, lemma_utf8_len_single, string_from_chars,
    utf8_len,
};

verus! {

/// A sentence end (`.`, `?` or `!`).
pub open spec fn is_sentence_mark(c: char) -> bool {
    c == '.' || c == '?' || c == '!'
}

/// A chunk may start right after characters `k` and `k + 1`: a paragraph
/// break or a sentence end followed by whitespace.
pub open spec fn is_break(chars: Seq<char>, k: int) -> bool {
    (chars[k] == '\n' && chars[k + 1] == '\n') || (is_sentence_mark(chars[k]) && is_ws(chars[k + 1]))
}

/// The interior boundaries `k + 2` for the breaks at `k < m`.
pub open spec fn interior_bounds(chars: Seq<char>, m: int) -> Seq<int>
    decreases m,
{
    if m <= 0 {
        seq![]
    } else if is_break(chars, m - 1) {
        interior_bounds(chars, m - 1).push(m + 1)
    } else {
        interior_bounds(chars, m - 1)
    }
}

/// Candidate chunk boundaries of a non-empty page: 0, every interior
/// boundary, and the page length.
pub open spec fn bounds_spec(chars: Seq<char>) -> Seq<int> {
    let n = chars.len() as int;
    let b = seq![0int] + interior_bounds(chars, n - 1);
    if b.last() != n {
        b.push(n)
    } else {
        b
    }
}

/// UTF-8 size of the characters `a..b`.
pub open spec fn seg_bytes(chars: Seq<char>, a: int, b: int) -> nat {
    utf8_len(chars.subrange(a, b))
}

/// Greedy growth: from boundary index `e` with `acc` bytes taken, glue the
/// next segment while the total stays within `t` (or nothing was taken).
pub open spec fn grow(chars: Seq<char>, bounds: Seq<int>, e: int, acc: nat, t: nat) -> int
    decreases bounds.len() - e,
{
    if 0 <= e && e + 1 < bounds.len() && (acc + seg_bytes(chars, bounds[e], bounds[e + 1]) <= t
        || acc == 0) {
        grow(chars, bounds, e + 1, acc + seg_bytes(chars, bounds[e], bounds[e + 1]), t)
    } else {
        e
    }
}

/// Overlap walk: move `a` left, one character at a time, while the bytes
/// taken stay within `o` and `a` stays above `floor`.
pub open spec fn walk(chars: Seq<char>, a: int, floor: int, acc: nat, o: nat) -> int
    decreases a - floor,
{
    if a > floor && acc + char_utf8_len(chars[a - 1]) <= o {
        walk(chars, a - 1, floor, acc + char_utf8_len(chars[a - 1]), o)
    } else {
        a
    }
}

pub proof fn lemma_grow_range(chars: Seq<char>, bounds: Seq<int>, e: int, acc: nat, t: nat)
    requires
        0 <= e < bounds.len(),
    ensures
        e <= grow(chars, bounds, e, acc, t) < bounds.len(),
    decreases bounds.len() - e,
{
    if e + 1 < bounds.len() && (acc + seg_bytes(chars, bounds[e], bounds[e + 1]) <= t || acc == 0) {
        lemma_grow_range(chars, bounds, e + 1, acc + seg_bytes(chars, bounds[e], bounds[e + 1]), t);
    }
}

/// The tier-1 chunks of a page from boundary index `si` on, each as
/// `(segment_start, start, end)`; `prev` is the previous chunk's start.
pub open spec fn page_fold(
    chars: Seq<char>,
    bounds: Seq<int>,
    si: int,
    prev: Option<int>,
    t: nat,
    o: nat,
) -> Seq<(int, int, int)>
    decreases bounds.len() - si,
{
    if 0 <= si && si + 1 < bounds.len() {
        let st = bounds[si];
        let e = grow(chars, bounds, si + 1, seg_bytes(chars, st, bounds[si + 1]), t);
        let a = match prev {
            Some(pm) => walk(chars, st, pm, 0, o),
            None => st,
        };
        proof {
            lemma_grow_range(chars, bounds, si + 1, seg_bytes(chars, st, bounds[si + 1]), t);
        }
        seq![(st, a, bounds[e])] + page_fold(chars, bounds, e, Some(a), t, o)
    } else {
        seq![]
    }
}

/// The tier-1 chunks of a page, as `(segment_start, start, end)` character
/// indices: none for an empty or whitespace-only page, the whole page when
/// it fits `t` bytes, else the greedy split with overlap budget `o` bytes.
pub open spec fn chunk_page_spec(chars: Seq<char>, t: nat, o: nat) -> Seq<(int, int, int)> {
    if all_ws(chars) {
        seq![]
    } else if utf8_len(chars) <= t {
        seq![(0, 0, chars.len() as int)]
    } else {
        page_fold(chars, bounds_spec(chars), 0, None, t, o)
    }
}


/// Integer view of a vector of indices.
pub open spec fn ints(v: Seq<usize>) -> Seq<int> {
    v.map_values(|x: usize| x as int)
}

/// Integer view of the index triples of tier-1 chunks.
pub open spec fn triples(v: Seq<(usize, usize, usize, String)>) -> Seq<(int, int, int)> {
    v.map_values(|x: (usize, usize, usize, String)| (x.0 as int, x.1 as int, x.2 as int))
}

pub open spec fn opt_int(o: Option<usize>) -> Option<int> {
    match o {
        Some(x) => Some(x as int),
        None => None,
    }
}

proof fn lemma_seg_bytes(chars: Seq<char>, a: int, b: int)
    requires
        0 <= a <= b <= chars.len(),
    ensures
        utf8_len(chars.take(b)) == utf8_len(chars.take(a)) + seg_bytes(chars, a, b),
{
    assert(chars.take(b) =~= chars.take(a) + chars.subrange(a, b));
    lemma_utf8_len_concat(chars.take(a), chars.subrange(a, b));
}

/// Running UTF-8 sizes: entry `i` is the size of the first `i` characters.
fn byte_prefix(chars: &Vec<char>) -> (res: Vec<u128>)
    ensures
        res@.len() == chars@.len() + 1,
        forall|i: int| 0 <= i <= chars@.len() ==> (#[trigger] res@[i]) as nat == utf8_len(chars@.take(i)),
        forall|i: int| 0 <= i <= chars@.len() ==> (#[trigger] res@[i]) <= 4 * i,
{
    let mut res: Vec<u128> = Vec::new();
    res.push(0);
    proof {
        assert(chars@.take(0) =~= Seq::<char>::empty());
    }
    let mut total: u128 = 0;
    let mut i: usize = 0;
    while i < chars.len()
        invariant
            i <= chars@.len(),
            res@.len() == i + 1,
            total == res@[i as int],
            forall|k: int| 0 <= k <= i ==> (#[trigger] res@[k]) as nat == utf8_len(chars@.take(k)),
            forall|k: int| 0 <= k <= i ==> (#[trigger] res@[k]) <= 4 * k,
        decreases chars@.len() - i,
    {
        let c = chars[i];
        let n = char_len(c);
        proof {
            assert(chars@.take(i + 1).drop_last() =~= chars@.take(i as int));
            assert(chars@.take(i + 1).last() == c);
        }
        total = total + n as u128;
        res.push(total);
        i = i + 1;
    }
    res
}

/// The candidate boundaries of a non-empty page.
fn page_bounds(chars: &Vec<char>) -> (res: Vec<usize>)
    requires
        chars@.len() > 0,
    ensures
        ints(res@) == bounds_spec(chars@),
{
    let n = chars.len();
    let mut b: Vec<usize> = Vec::new();
    b.push(0);
    proof {
        assert(ints(b@) =~= seq![0int] + interior_bounds(chars@, 0));
    }
    let mut k: usize = 0;
    while k + 1 < n
        invariant
            n == chars@.len(),
            n > 0,
            k + 1 <= n,
            ints(b@) == seq![0int] + interior_bounds(chars@, k as int),
        decreases n - k,
    {
        let c = chars[k];
        let nx = chars[k + 1];
        let para = c == '\n' && nx == '\n';
        let sent = (c == '.' || c == '?' || c == '!') && is_ws_char(nx);
        let ghost old_b = b@;
        if para || sent {
            b.push(k + 2);
            proof {
                assert(ints(b@) =~= ints(old_b).push((k + 2) as int));
            }
        }
        proof {
            assert(is_break(chars@, k as int) == (para || sent));
            assert(interior_bounds(chars@, k + 1) == (if is_break(chars@, k as int) {
                interior_bounds(chars@, k as int).push(k + 2)
            } else {
                interior_bounds(chars@, k as int)
            }));
            assert(ints(b@) =~= seq![0int] + interior_bounds(chars@, k + 1));
        }
        k = k + 1;
    }
    let last = b[b.len() - 1];
    proof {
        assert(ints(b@).last() == last as int);
    }
    if last != n {
        let ghost old_b = b@;
        b.push(n);
        proof {
            assert(ints(b@) =~= ints(old_b).push(n as int));
        }
    }
    b
}


proof fn lemma_interior_bounds(chars: Seq<char>, m: int)
    requires
        m >= 0,
    ensures
        forall|i: int|
            0 <= i < interior_bounds(chars, m).len() ==> 2 <= #[trigger] interior_bounds(chars, m)[i]
                <= m + 1,
        forall|i: int, j: int|
            0 <= i < j < interior_bounds(chars, m).len() ==> #[trigger] interior_bounds(chars, m)[i]
                < #[trigger] interior_bounds(chars, m)[j],
    decreases m,
{
    if m > 0 {
        lemma_interior_bounds(chars, m - 1);
        let prev = interior_bounds(chars, m - 1);
        let cur = interior_bounds(chars, m);
        if is_break(chars, m - 1) {
            assert(cur == prev.push(m + 1));
            assert forall|i: int| 0 <= i < cur.len() implies 2 <= #[trigger] cur[i] <= m + 1 by {
                if i < prev.len() {
                    assert(cur[i] == prev[i]);
                }
            }
            assert forall|i: int, j: int| 0 <= i < j < cur.len() implies #[trigger] cur[i] < #[trigger] cur[j] by {
                assert(cur[i] == prev[i]);
                if j < prev.len() {
                    assert(cur[j] == prev[j]);
                }
            }
        } else {
            assert(cur == prev);
        }
    }
}

/// The boundaries of a non-empty page start at 0, end at its length and
/// strictly increase.
pub proof fn lemma_bounds(chars: Seq<char>)
    requires
        chars.len() > 0,
    ensures
        bounds_spec(chars).len() >= 2,
        bounds_spec(chars)[0] == 0,
        bounds_spec(chars).last() == chars.len(),
        forall|i: int|
            0 <= i < bounds_spec(chars).len() ==> 0 <= #[trigger] bounds_spec(chars)[i] <= chars.len(),
        forall|i: int, j: int|
            0 <= i < j < bounds_spec(chars).len() ==> #[trigger] bounds_spec(chars)[i]
                < #[trigger] bounds_spec(chars)[j],
{
    let n = chars.len() as int;
    let ib = interior_bounds(chars, n - 1);
    lemma_interior_bounds(chars, n - 1);
    let b = seq![0int] + ib;
    assert forall|i: int, j: int| 0 <= i < j < b.len() implies #[trigger] b[i] < #[trigger] b[j] by {
        if i > 0 {
            assert(b[i] == ib[i - 1]);
        }
        assert(b[j] == ib[j - 1]);
    }
    assert forall|i: int| 0 <= i < b.len() implies 0 <= #[trigger] b[i] <= n by {
        if i > 0 {
            assert(b[i] == ib[i - 1]);
        }
    }
    if b.last() != n {
        let bb = b.push(n);
        assert forall|i: int, j: int| 0 <= i < j < bb.len() implies #[trigger] bb[i] < #[trigger] bb[j] by {
            if j == bb.len() - 1 {
                assert(b[i] <= b.last());
                if i < b.len() - 1 {
                    assert(b[i] < b[b.len() - 1]);
                }
            } else {
                assert(bb[i] == b[i] && bb[j] == b[j]);
            }
        }
        assert forall|i: int| 0 <= i < bb.len() implies 0 <= #[trigger] bb[i] <= n by {
            if i < b.len() {
                assert(bb[i] == b[i]);
            }
        }
    } else {
        if ib.len() == 0 {
            assert(b.last() == 0);
        }
    }
}


pub proof fn lemma_walk_range(chars: Seq<char>, a: int, floor: int, acc: nat, o: nat)
    requires
        floor <= a,
    ensures
        floor <= walk(chars, a, floor, acc, o) <= a,
    decreases a - floor,
{
    if a > floor && acc + char_utf8_len(chars[a - 1]) <= o {
        lemma_walk_range(chars, a - 1, floor, acc + char_utf8_len(chars[a - 1]), o);
    }
}

/// The sizes recorded by `byte_prefix` for `chars`.
pub open spec fn is_prefix_table(chars: Seq<char>, prefix: Seq<u128>) -> bool {
    &&& prefix.len() == chars.len() + 1
    &&& forall|i: int| 0 <= i <= chars.len() ==> (#[trigger] prefix[i]) as nat == utf8_len(chars.take(i))
    &&& forall|i: int| 0 <= i <= chars.len() ==> (#[trigger] prefix[i]) <= 4 * i
}

proof fn lemma_prefix_diff(chars: Seq<char>, prefix: Seq<u128>, a: int, b: int)
    requires
        is_prefix_table(chars, prefix),
        0 <= a <= b <= chars.len(),
    ensures
        prefix[a] <= prefix[b],
        (prefix[b] - prefix[a]) as nat == seg_bytes(chars, a, b),
{
    lemma_seg_bytes(chars, a, b);
}

/// The end boundary index of the chunk that starts at boundary index `si`.
fn grow_exec(chars: &Vec<char>, prefix: &Vec<u128>, bounds: &Vec<usize>, si: usize, t: usize) -> (e: usize)
    requires
        chars@.len() > 0,
        is_prefix_table(chars@, prefix@),
        ints(bounds@) == bounds_spec(chars@),
        si + 1 < bounds@.len(),
    ensures
        e as int == grow(
            chars@,
            bounds_spec(chars@),
            si + 1,
            seg_bytes(chars@, bounds_spec(chars@)[si as int], bounds_spec(chars@)[si + 1]),
            t as nat,
        ),
{
    let ghost b = bounds_spec(chars@);
    proof {
        lemma_bounds(chars@);
        assert(b.len() == bounds@.len());
    }
    let blen = bounds.len();
    let start = bounds[si];
    let mut e: usize = si + 1;
    proof {
        assert(b[si as int] == start as int);
        assert(b[e as int] == bounds@[e as int] as int);
        lemma_prefix_diff(chars@, prefix@, start as int, bounds@[e as int] as int);
    }
    let mut acc: u128 = prefix[bounds[e]] - prefix[start];
    let ghost g = grow(chars@, b, si + 1, acc as nat, t as nat);
    let mut done = false;
    while !done && e + 1 < blen
        invariant
            blen == bounds@.len(),
            chars@.len() > 0,
            is_prefix_table(chars@, prefix@),
            ints(bounds@) == b,
            b == bounds_spec(chars@),
            b.len() == bounds@.len(),
            forall|i: int| 0 <= i < b.len() ==> 0 <= #[trigger] b[i] <= chars@.len(),
            forall|i: int, j: int| 0 <= i < j < b.len() ==> #[trigger] b[i] < #[trigger] b[j],
            si + 1 <= e < b.len(),
            start as int == b[si as int],
            acc as nat == seg_bytes(chars@, b[si as int], b[e as int]),
            !done ==> grow(chars@, b, e as int, acc as nat, t as nat) == g,
            done ==> e as int == g,
        decreases 2 * (b.len() - e) + (if done { 0int } else { 1int }),
    {
        let x = bounds[e];
        let y = bounds[e + 1];
        proof {
            assert(b[e as int] == x as int);
            assert(b[e + 1] == y as int);
            lemma_prefix_diff(chars@, prefix@, x as int, y as int);
            lemma_prefix_diff(chars@, prefix@, start as int, x as int);
            lemma_prefix_diff(chars@, prefix@, start as int, y as int);
        }
        let next = prefix[y] - prefix[x];
        if acc + next > t as u128 && acc > 0 {
            done = true;
        } else {
            acc = acc + next;
            e = e + 1;
        }
    }
    e
}

/// The start of a chunk whose segment starts at `start`, after the overlap
/// walk down to at most `floor`.
fn walk_exec(chars: &Vec<char>, start: usize, floor: usize, o: usize) -> (a: usize)
    requires
        floor <= start <= chars@.len(),
    ensures
        a as int == walk(chars@, start as int, floor as int, 0, o as nat),
{
    let ghost w = walk(chars@, start as int, floor as int, 0, o as nat);
    let mut a = start;
    let mut acc: u128 = 0;
    let mut done = false;
    while !done && a > floor
        invariant
            floor <= a <= start <= chars@.len(),
            acc <= 4 * (start - a),
            !done ==> walk(chars@, a as int, floor as int, acc as nat, o as nat) == w,
            done ==> a as int == w,
        decreases 2 * (a - floor) + (if done { 0int } else { 1int }),
    {
        let cl = char_len(chars[a - 1]) as u128;
        if acc + cl > o as u128 {
            done = true;
        } else {
            acc = acc + cl;
            a = a - 1;
        }
    }
    a
}

/// The characters `a..b` as a string.
pub fn slice_string(chars: &Vec<char>, a: usize, b: usize) -> (res: String)
    requires
        a <= b <= chars@.len(),
    ensures
        res@ == chars@.subrange(a as int, b as int),
{
    let mut v: Vec<char> = Vec::new();
    let mut k = a;
    while k < b
        invariant
            a <= k <= b <= chars@.len(),
            v@ == chars@.subrange(a as int, k as int),
        decreases b - k,
    {
        v.push(chars[k]);
        proof {
            assert(chars@.subrange(a as int, k + 1) =~= chars@.subrange(a as int, k as int).push(chars@[k as int]));
        }
        k = k + 1;
    }
    string_from_chars(&v)
}

/// Split one page's text into tier-1 chunks `(segment_start, start, end,
/// text)`: character indices of the pre-overlap segment start, the chunk
/// start after the overlap walk, and the exclusive end; `text` is the
/// page's characters `start..end`. An empty or whitespace-only page gives
/// no chunks.
pub fn chunk_page(text: &str, target_bytes: usize, overlap_bytes: usize) -> (res: Vec<(usize, usize, usize, String)>)
    ensures
        triples(res@) == chunk_page_spec(text@, target_bytes as nat, overlap_bytes as nat),
        forall|i: int|
            0 <= i < res@.len() ==> (#[trigger] res@[i]).3@ == text@.subrange(
                res@[i].1 as int,
                res@[i].2 as int,
            ),
{
    let chars = chars_of(text);
    let n = chars.len();
    if is_blank(&chars) {
        let empty: Vec<(usize, usize, usize, String)> = Vec::new();
        proof {
            assert(triples(empty@) =~= Seq::<(int, int, int)>::empty());
        }
        return empty;
    }
    let prefix = byte_prefix(&chars);
    proof {
        assert(chars@.take(n as int) =~= chars@);
    }
    if prefix[n] <= target_bytes as u128 {
        let mut one: Vec<(usize, usize, usize, String)> = Vec::new();
        one.push((0, 0, n, String::from_str(text)));
        proof {
            assert(triples(one@) =~= seq![(0int, 0int, n as int)]);
            assert(text@.subrange(0, n as int) =~= text@);
        }
        return one;
    }
    let bounds = page_bounds(&chars);
    let ghost b = bounds_spec(chars@);
    let ghost t = target_bytes as nat;
    let ghost o = overlap_bytes as nat;
    let ghost total = page_fold(chars@, b, 0, None, t, o);
    proof {
        lemma_bounds(chars@);
        assert(b.len() == bounds@.len());
        assert(forall|i: int| 0 <= i < b.len() ==> #[trigger] b[i] == bounds@[i] as int);
    }
    let blen = bounds.len();
    let mut chunks: Vec<(usize, usize, usize, String)> = Vec::new();
    let mut seg_idx: usize = 0;
    let mut prev: Option<usize> = None;
    proof {
        assert(triples(chunks@) + page_fold(chars@, b, 0, opt_int(prev), t, o) =~= total);
    }
    while seg_idx + 1 < blen
        invariant
            blen == bounds@.len(),
            n == chars@.len(),
            n > 0,
            chars@ == text@,
            is_prefix_table(chars@, prefix@),
            ints(bounds@) == b,
            b == bounds_spec(chars@),
            b.len() == bounds@.len(),
            forall|i: int| 0 <= i < b.len() ==> #[trigger] b[i] == bounds@[i] as int,
            forall|i: int| 0 <= i < b.len() ==> 0 <= #[trigger] b[i] <= chars@.len(),
            forall|i: int, j: int| 0 <= i < j < b.len() ==> #[trigger] b[i] < #[trigger] b[j],
            t == target_bytes as nat,
            o == overlap_bytes as nat,
            seg_idx < b.len(),
            triples(chunks@) + page_fold(chars@, b, seg_idx as int, opt_int(prev), t, o) == total,
            forall|i: int|
                0 <= i < chunks@.len() ==> (#[trigger] chunks@[i]).3@ == chars@.subrange(
                    chunks@[i].1 as int,
                    chunks@[i].2 as int,
                ),
            prev matches Some(p) ==> p < b[seg_idx as int],
        decreases b.len() - seg_idx,
    {
        let start = bounds[seg_idx];
        let end_idx = grow_exec(&chars, &prefix, &bounds, seg_idx, target_bytes);
        proof {
            lemma_grow_range(
                chars@,
                b,
                seg_idx + 1,
                seg_bytes(chars@, b[seg_idx as int], b[seg_idx + 1]),
                t,
            );
        }
        let chunk_end = bounds[end_idx];
        let actual_start = match prev {
            Some(pm) => walk_exec(&chars, start, pm, overlap_bytes),
            None => start,
        };
        proof {
            if let Some(pm) = prev {
                lemma_walk_range(chars@, start as int, pm as int, 0, o);
            }
            assert(start < chunk_end);
        }
        let slice = slice_string(&chars, actual_start, chunk_end);
        let ghost old_chunks = chunks@;
        let ghost entry = (start as int, actual_start as int, chunk_end as int);
        proof {
            assert(page_fold(chars@, b, seg_idx as int, opt_int(prev), t, o) == seq![entry] + page_fold(
                chars@,
                b,
                end_idx as int,
                Some(actual_start as int),
                t,
                o,
            ));
        }
        chunks.push((start, actual_start, chunk_end, slice));
        proof {
            assert(triples(chunks@) =~= triples(old_chunks).push(entry));
            assert(triples(chunks@) + page_fold(chars@, b, end_idx as int, Some(actual_start as int), t, o)
                =~= triples(old_chunks) + (seq![entry] + page_fold(
                chars@,
                b,
                end_idx as int,
                Some(actual_start as int),
                t,
                o,
            )));
            assert(opt_int(Some(actual_start)) == Some(actual_start as int));
            assert forall|i: int| 0 <= i < chunks@.len() implies (#[trigger] chunks@[i]).3@ == chars@.subrange(
                chunks@[i].1 as int,
                chunks@[i].2 as int,
            ) by {
                if i < old_chunks.len() {
                    assert(chunks@[i] == old_chunks[i]);
                }
            }
        }
        prev = Some(actual_start);
        seg_idx = end_idx;
    }
    proof {
        assert(triples(chunks@) =~= total);
    }
    chunks
}


proof fn lemma_seg_split(chars: Seq<char>, x: int, y: int, z: int)
    requires
        0 <= x <= y <= z <= chars.len(),
    ensures
        seg_bytes(chars, x, z) == seg_bytes(chars, x, y) + seg_bytes(chars, y, z),
{
    assert(chars.subrange(x, z) =~= chars.subrange(x, y) + chars.subrange(y, z));
    lemma_utf8_len_concat(chars.subrange(x, y), chars.subrange(y, z));
}

proof fn lemma_walk_overlap(chars: Seq<char>, a: int, floor: int, acc: nat, o: nat)
    requires
        0 <= floor <= a <= chars.len(),
        acc <= o,
    ensures
        acc + seg_bytes(chars, walk(chars, a, floor, acc, o), a) <= o,
    decreases a - floor,
{
    let w = walk(chars, a, floor, acc, o);
    if a > floor && acc + char_utf8_len(chars[a - 1]) <= o {
        let c = char_utf8_len(chars[a - 1]);
        lemma_walk_overlap(chars, a - 1, floor, acc + c, o);
        lemma_walk_range(chars, a - 1, floor, acc + c, o);
        lemma_seg_split(chars, w, a - 1, a);
        assert(chars.subrange(a - 1, a) =~= seq![chars[a - 1]]);
        lemma_utf8_len_single(chars[a - 1]);
    } else {
        assert(chars.subrange(a, a) =~= Seq::<char>::empty());
    }
}

/// Shape of tier-1 chunks over a page of `n` characters with overlap
/// budget `o`: they tile the page by segments (`segment_start` of each is
/// the previous `end`, the first starts at 0, the last ends at `n`); each
/// chunk start lies between the previous chunk's start and its own segment
/// start, and the overlap before the segment is within `o` bytes.
pub open spec fn page_chunks_wf(chars: Seq<char>, r: Seq<(int, int, int)>, o: nat) -> bool {
    &&& r.len() > 0 ==> r[0].0 == 0 && r[0].1 == 0 && r.last().2 == chars.len()
    &&& forall|i: int| 0 <= i < r.len() ==> 0 <= (#[trigger] r[i]).1 <= r[i].0 < r[i].2 <= chars.len()
    &&& forall|i: int| 0 <= i < r.len() ==> seg_bytes(chars, (#[trigger] r[i]).1, r[i].0) <= o
    &&& forall|i: int| 0 <= i < r.len() - 1 ==> (#[trigger] r[i]).2 == r[i + 1].0
    &&& forall|i: int| 0 <= i < r.len() - 1 ==> (#[trigger] r[i]).1 <= r[i + 1].1
}

proof fn lemma_page_fold_wf(chars: Seq<char>, si: int, prev: Option<int>, t: nat, o: nat)
    requires
        chars.len() > 0,
        0 <= si < bounds_spec(chars).len() - 1,
        prev matches Some(p) ==> 0 <= p < bounds_spec(chars)[si],
    ensures
        ({
            let b = bounds_spec(chars);
            let r = page_fold(chars, b, si, prev, t, o);
            &&& r.len() > 0
            &&& r[0].0 == b[si]
            &&& (prev matches Some(p) ==> p <= r[0].1)
            &&& (prev is None ==> r[0].1 == r[0].0)
            &&& r.last().2 == chars.len()
            &&& forall|i: int| 0 <= i < r.len() ==> 0 <= (#[trigger] r[i]).1 <= r[i].0 < r[i].2 <= chars.len()
            &&& forall|i: int| 0 <= i < r.len() ==> seg_bytes(chars, (#[trigger] r[i]).1, r[i].0) <= o
            &&& forall|i: int| 0 <= i < r.len() - 1 ==> (#[trigger] r[i]).2 == r[i + 1].0
            &&& forall|i: int| 0 <= i < r.len() - 1 ==> (#[trigger] r[i]).1 <= r[i + 1].1
        }),
    decreases bounds_spec(chars).len() - si,
{
    let b = bounds_spec(chars);
    lemma_bounds(chars);
    let st = b[si];
    let acc0 = seg_bytes(chars, st, b[si + 1]);
    let e = grow(chars, b, si + 1, acc0, t);
    lemma_grow_range(chars, b, si + 1, acc0, t);
    let a = match prev {
        Some(pm) => walk(chars, st, pm, 0, o),
        None => st,
    };
    match prev {
        Some(pm) => {
            lemma_walk_range(chars, st, pm, 0, o);
            lemma_walk_overlap(chars, st, pm, 0, o);
        },
        None => {
            assert(chars.subrange(st, st) =~= Seq::<char>::empty());
        },
    }
    let head = seq![(st, a, b[e])];
    let r = page_fold(chars, b, si, prev, t, o);
    assert(r == head + page_fold(chars, b, e, Some(a), t, o));
    if e + 1 < b.len() {
        lemma_page_fold_wf(chars, e, Some(a), t, o);
        let rest = page_fold(chars, b, e, Some(a), t, o);
        assert forall|i: int| 0 <= i < r.len() implies 0 <= (#[trigger] r[i]).1 <= r[i].0 < r[i].2 <= chars.len() by {
            if i > 0 {
                assert(r[i] == rest[i - 1]);
            }
        }
        assert forall|i: int| 0 <= i < r.len() implies seg_bytes(chars, (#[trigger] r[i]).1, r[i].0) <= o by {
            if i > 0 {
                assert(r[i] == rest[i - 1]);
            }
        }
        assert forall|i: int| 0 <= i < r.len() - 1 implies (#[trigger] r[i]).2 == r[i + 1].0 by {
            if i > 0 {
                assert(r[i] == rest[i - 1]);
            }
            assert(r[i + 1] == rest[i]);
        }
        assert forall|i: int| 0 <= i < r.len() - 1 implies (#[trigger] r[i]).1 <= r[i + 1].1 by {
            if i > 0 {
                assert(r[i] == rest[i - 1]);
            }
            assert(r[i + 1] == rest[i]);
        }
        assert(r.last() == rest.last());
    } else {
        assert(page_fold(chars, b, e, Some(a), t, o) =~= Seq::<(int, int, int)>::empty());
        assert(r =~= head);
        assert(e == b.len() - 1);
    }
}

/// Tier-1 chunks of a page that is not blank: at least one, tiling the page with
/// strictly increasing segment starts, each start at or after the previous
/// chunk's start, and the overlap before each segment within `o` bytes.
pub proof fn lemma_chunk_page_laws(chars: Seq<char>, t: nat, o: nat)
    requires
        !all_ws(chars),
    ensures
        chunk_page_spec(chars, t, o).len() >= 1,
        page_chunks_wf(chars, chunk_page_spec(chars, t, o), o),
        forall|i: int, j: int|
            0 <= i < j < chunk_page_spec(chars, t, o).len() ==> (#[trigger] chunk_page_spec(chars, t, o)[i]).0
                < (#[trigger] chunk_page_spec(chars, t, o)[j]).0,
{
    let r = chunk_page_spec(chars, t, o);
    if utf8_len(chars) <= t {
        assert(chars.subrange(0, 0) =~= Seq::<char>::empty());
    } else {
        lemma_bounds(chars);
        lemma_page_fold_wf(chars, 0, None, t, o);
    }
    lemma_starts_increase(r, r.len() as int);
}


/// From boundary index `e`, with the bytes of `st..b[e]` taken, growth stops
/// where the next segment would pass `t`, and within `t` once it glued one.
proof fn lemma_grow_stops(chars: Seq<char>, st: int, e: int, acc: nat, t: nat)
    requires
        chars.len() > 0,
        0 <= e < bounds_spec(chars).len(),
        0 <= st < bounds_spec(chars)[e],
        acc == seg_bytes(chars, st, bounds_spec(chars)[e]),
    ensures
        ({
            let b = bounds_spec(chars);
            let g = grow(chars, b, e, acc, t);
            &&& g + 1 < b.len() ==> seg_bytes(chars, st, b[g + 1]) > t
            &&& g > e ==> seg_bytes(chars, st, b[g]) <= t
        }),
    decreases bounds_spec(chars).len() - e,
{
    let b = bounds_spec(chars);
    lemma_bounds(chars);
    crate::text::lemma_utf8_len_bounds(chars.subrange(st, b[e]));
    if e + 1 < b.len() {
        assert(b[e] < b[e + 1]);
        lemma_seg_split(chars, st, b[e], b[e + 1]);
        let acc2 = acc + seg_bytes(chars, b[e], b[e + 1]);
        if acc2 <= t {
            lemma_grow_stops(chars, st, e + 1, acc2, t);
        }
    }
}

/// Each tier-1 chunk from boundary index `si` on starts at a boundary `k`
/// and ends at a later boundary `j`; the segment after `j` would pass `t`,
/// and a chunk of more than one segment stays within `t`.
proof fn lemma_page_fold_greedy(chars: Seq<char>, si: int, prev: Option<int>, t: nat, o: nat, i: int)
    requires
        chars.len() > 0,
        0 <= si < bounds_spec(chars).len() - 1,
        0 <= i < page_fold(chars, bounds_spec(chars), si, prev, t, o).len(),
    ensures
        ({
            let b = bounds_spec(chars);
            let r = page_fold(chars, b, si, prev, t, o);
            exists|k: int, j: int|
                0 <= k < j < b.len() && r[i].0 == #[trigger] b[k] && r[i].2 == #[trigger] b[j] && (j + 1
                    < b.len() ==> seg_bytes(chars, r[i].0, b[j + 1]) > t) && (j > k + 1 ==> seg_bytes(
                    chars,
                    r[i].0,
                    r[i].2,
                ) <= t)
        }),
    decreases bounds_spec(chars).len() - si,
{
    let b = bounds_spec(chars);
    lemma_bounds(chars);
    let st = b[si];
    let acc0 = seg_bytes(chars, st, b[si + 1]);
    let e = grow(chars, b, si + 1, acc0, t);
    lemma_grow_range(chars, b, si + 1, acc0, t);
    lemma_grow_stops(chars, st, si + 1, acc0, t);
    let a = match prev {
        Some(pm) => walk(chars, st, pm, 0, o),
        None => st,
    };
    let r = page_fold(chars, b, si, prev, t, o);
    let rest = page_fold(chars, b, e, Some(a), t, o);
    assert(r == seq![(st, a, b[e])] + rest);
    if i == 0 {
        assert(r[0] == (st, a, b[e]));
        assert(0 <= si < e < b.len() && r[i].0 == b[si] && r[i].2 == b[e]);
    } else {
        if e + 1 < b.len() {
            lemma_page_fold_greedy(chars, e, Some(a), t, o, i - 1);
            assert(r[i] == rest[i - 1]);
        } else {
            assert(rest =~= Seq::<(int, int, int)>::empty());
        }
    }
}

/// Tier-1 chunks are glued greedily: every chunk but a page's last ends at
/// a boundary whose next segment would take it past `t` bytes (counted
/// from the chunk's segment start), and a chunk over `t` bytes is one
/// boundary segment.
pub proof fn lemma_chunk_page_greedy(chars: Seq<char>, t: nat, o: nat, i: int)
    requires
        0 <= i < chunk_page_spec(chars, t, o).len(),
    ensures
        ({
            let b = bounds_spec(chars);
            let r = chunk_page_spec(chars, t, o);
            &&& (seg_bytes(chars, r[i].0, r[i].2) <= t || exists|k: int|
                0 <= k && k + 1 < b.len() && r[i].0 == #[trigger] b[k] && r[i].2 == b[k + 1])
            &&& (i + 1 < r.len() ==> exists|j: int|
                0 <= j && j + 1 < b.len() && r[i].2 == #[trigger] b[j] && seg_bytes(chars, r[i].0, b[j + 1]) > t)
        }),
{
    let b = bounds_spec(chars);
    let r = chunk_page_spec(chars, t, o);
    if all_ws(chars) {
    } else if utf8_len(chars) <= t {
        assert(chars.subrange(0, chars.len() as int) =~= chars);
    } else {
        if chars.len() == 0 {
            assert(utf8_len(chars) == 0);
        }
        lemma_bounds(chars);
        lemma_page_fold_greedy(chars, 0, None, t, o, i);
        let (k, j) = choose|k: int, j: int|
            0 <= k < j < b.len() && r[i].0 == #[trigger] b[k] && r[i].2 == #[trigger] b[j] && (j + 1 < b.len()
                ==> seg_bytes(chars, r[i].0, b[j + 1]) > t) && (j > k + 1 ==> seg_bytes(chars, r[i].0, r[i].2)
                <= t);
        if j == k + 1 {
            assert(r[i].2 == b[k + 1]);
        }
        if i + 1 < r.len() {
            lemma_page_fold_wf(chars, 0, None, t, o);
            assert(r.last().2 == chars.len());
            if j + 1 >= b.len() {
                assert(r[i].2 == chars.len());
                assert(r[i].2 == r[i + 1].0);
                assert(r[i + 1].0 < r[i + 1].2);
                assert(false);
            }
        }
    }
}
proof fn lemma_starts_increase(r: Seq<(int, int, int)>, m: int)
    requires
        0 <= m <= r.len(),
        forall|i: int| 0 <= i < r.len() ==> (#[trigger] r[i]).0 < r[i].2,
        forall|i: int| 0 <= i < r.len() - 1 ==> (#[trigger] r[i]).2 == r[i + 1].0,
    ensures
        forall|i: int, j: int| 0 <= i < j < m ==> (#[trigger] r[i]).0 < (#[trigger] r[j]).0,
    decreases m,
{
    if m > 1 {
        lemma_starts_increase(r, m - 1);
        assert forall|i: int, j: int| 0 <= i < j < m implies (#[trigger] r[i]).0 < (#[trigger] r[j]).0 by {
            if j == m - 1 {
                assert(r[m - 2].2 == r[m - 1].0);
                if i < m - 2 {
                    assert(r[i].0 < r[m - 2].0);
                }
            }
        }
    }
}


// ---------------------------------------------------------------------------
// The chunker

/// Version label of [`PdfPageV1Chunker`].
pub open spec fn pdf_label() -> Seq<char> {
    "pdf-page-v1.2"@
}

/// A PDF page block: a paragraph with a page span.
pub open spec fn is_pdf_page(b: Block) -> bool {
    &&& b is Paragraph
    &&& b.common_spec().source_span is Page
}

/// The text of a page block.
pub open spec fn page_text(b: Block) -> Seq<char> {
    match b {
        Block::Paragraph(t) => t.text@,
        _ => seq![],
    }
}

/// The page number of a page block.
pub open spec fn page_number(b: Block) -> u32 {
    match b.common_spec().source_span {
        SourceSpan::Page { page, .. } => page,
        _ => 0,
    }
}

/// The error for the first block of `blocks[..m]` that is not a PDF page,
/// if any.
pub open spec fn pdf_validation(blocks: Seq<Block>, m: int) -> Option<ChunkError>
    decreases m,
{
    if m <= 0 {
        None
    } else {
        match pdf_validation(blocks, m - 1) {
            Some(e) => Some(e),
            None => if !(blocks[m - 1] is Paragraph) {
                Some(ChunkError::NonParagraphBlock)
            } else if !(blocks[m - 1].common_spec().source_span is Page) {
                Some(ChunkError::NonPageSpan)
            } else {
                None
            },
        }
    }
}

/// Every non-blank page's characters can be indexed by `u32`.
pub open spec fn pages_fit_u32(blocks: Seq<Block>) -> bool {
    forall|k: int|
        0 <= k < blocks.len() && !all_ws(page_text(#[trigger] blocks[k])) ==> page_text(blocks[k]).len()
            <= u32::MAX
}

/// `x * 3`, saturating at `usize::MAX`.
pub open spec fn sat_mul3(x: usize) -> nat {
    if x * 3 > usize::MAX {
        usize::MAX as nat
    } else {
        (x * 3) as nat
    }
}

/// The tier-1 byte target: `target_tokens * 3` (saturating), at least 1.
pub open spec fn target_bytes_spec(policy: ChunkPolicy) -> nat {
    if sat_mul3(policy.target_tokens) == 0 {
        1
    } else {
        sat_mul3(policy.target_tokens)
    }
}

/// The overlap budget: `overlap_tokens * 3` (saturating), at most half
/// the target.
pub open spec fn overlap_bytes_spec(policy: ChunkPolicy) -> nat {
    let o = sat_mul3(policy.overlap_tokens);
    let half = target_bytes_spec(policy) / 2;
    if o <= half {
        o
    } else {
        half
    }
}

/// The tier-1 chunks of a page; none for a blank page.
pub open spec fn page_segments(b: Block, t: nat, o: nat) -> Seq<(int, int, int)> {
    if all_ws(page_text(b)) {
        seq![]
    } else {
        chunk_page_spec(page_text(b), t, o)
    }
}

/// Tag each tier-1 chunk with the index of its page block.
pub open spec fn tag_segments(k: int, r: Seq<(int, int, int)>) -> Seq<(int, (int, int, int))> {
    r.map_values(|x: (int, int, int)| (k, x))
}

/// The tier-1 chunks of the pages `blocks[..m]`, in order.
pub open spec fn doc_segments(blocks: Seq<Block>, m: int, t: nat, o: nat) -> Seq<(int, (int, int, int))>
    decreases m,
{
    if m <= 0 {
        seq![]
    } else {
        doc_segments(blocks, m - 1, t, o) + tag_segments(m - 1, page_segments(blocks[m - 1], t, o))
    }
}

/// The text of a tagged tier-1 chunk.
pub open spec fn seg_text(blocks: Seq<Block>, s: (int, (int, int, int))) -> Seq<char> {
    page_text(blocks[s.0]).subrange(s.1.1, s.1.2)
}

/// Where the chunks of tier-1 chunk `k` start in the output.
pub open spec fn pdf_offset(blocks: Seq<Block>, segs: Seq<(int, (int, int, int))>, budget: nat, k: int) -> nat
    decreases k,
{
    if k <= 0 {
        0
    } else {
        pdf_offset(blocks, segs, budget, k - 1) + v2_count(seg_text(blocks, segs[k - 1]), budget)
    }
}

/// The pieces of a tier-1 chunk text: itself when it fits the budget, else
/// its `text_pieces`.
pub open spec fn pdf_pieces(text: Seq<char>, budget: nat) -> Seq<Seq<char>> {
    if text_fits(text, budget) {
        seq![text]
    } else {
        text_pieces_spec(text, budget)
    }
}

/// The id-hash suffix `#c{segment_start}`, with `s{i}` appended for piece
/// `i` of a split into several pieces.
pub open spec fn pdf_suffix(seg_start: int, i: int, single: bool) -> Seq<char> {
    let base = seq!['#', 'c'] + decimal(seg_start as nat);
    if single {
        base
    } else {
        base + seq!['s'] + decimal(i as nat)
    }
}

/// `c` is piece `i` of the tier-1 chunk `(s, a, e)` with text `text` of the
/// page block `block_id` / `page`.
pub open spec fn pdf_piece_built(
    c: Chunk,
    doc_id: Seq<char>,
    block_id: Seq<char>,
    page: u32,
    s: int,
    a: int,
    e: int,
    text: Seq<char>,
    i: int,
    budget: nat,
    cv: Seq<char>,
    ph: Seq<char>,
) -> bool {
    let pieces = pdf_pieces(text, budget);
    let piece = pieces[i];
    &&& c.doc_id@ == doc_id
    &&& strs(c.block_ids@) == seq![block_id]
    &&& c.text@ == piece
    &&& c.heading_path@.len() == 0
    &&& c.source_spans@ == seq![
        SourceSpan::Page { page: page, char_start: Some(a as u32), char_end: Some(e as u32) },
    ]
    &&& c.token_estimate as nat == est_tokens(utf8_len(piece))
    &&& c.chunker_version@ == cv
    &&& c.policy_hash@ == ph
    &&& c.chunk_id@ == chunk_id_spec(doc_id, cv, seq![block_id], ph + pdf_suffix(s, i, pieces.len() == 1))
    &&& match c.tokenized_korean_text {
        Some(k) => tokenize_korean_spec(piece) == Some(k@),
        None => tokenize_korean_spec(piece) is None,
    }
}

/// Chunk `i` emitted for tier-1 chunk `k`.
pub open spec fn pdf_chunk_at(
    chunks: Seq<Chunk>,
    blocks: Seq<Block>,
    segs: Seq<(int, (int, int, int))>,
    budget: nat,
    k: int,
    i: int,
) -> Chunk {
    chunks[pdf_offset(blocks, segs, budget, k) + i]
}

/// `chunks` are the pieces of the tagged tier-1 chunks `segs` of `doc`.
pub open spec fn pdf_chunks(
    chunks: Seq<Chunk>,
    doc: CanonicalDocument,
    segs: Seq<(int, (int, int, int))>,
    budget: nat,
    cv: Seq<char>,
    ph: Seq<char>,
) -> bool {
    &&& chunks.len() == pdf_offset(doc.blocks@, segs, budget, segs.len() as int)
    &&& forall|k: int, i: int|
        0 <= k < segs.len() && 0 <= i < v2_count(seg_text(doc.blocks@, segs[k]), budget)
            ==> pdf_piece_built(
            #[trigger] pdf_chunk_at(chunks, doc.blocks@, segs, budget, k, i),
            doc.doc_id@,
            doc.blocks@[segs[k].0].common_spec().block_id@,
            page_number(doc.blocks@[segs[k].0]),
            segs[k].1.0,
            segs[k].1.1,
            segs[k].1.2,
            seg_text(doc.blocks@, segs[k]),
            i,
            budget,
            cv,
            ph,
        )
}


/// The id hash `{ph}#c{s}`, or `{ph}#c{s}s{i}` for a piece of a split.
fn pdf_hash(ph: &str, s: usize, i: usize, single: bool) -> (res: String)
    ensures
        res@ == ph@ + pdf_suffix(s as int, i as int, single),
{
    let mut out = chars_of(ph);
    out.push('#');
    out.push('c');
    let ghost before = out@;
    push_decimal(&mut out, s as u64);
    let ghost mid = out@;
    if !single {
        out.push('s');
        push_decimal(&mut out, i as u64);
    }
    let res = string_from_chars(&out);
    proof {
        assert(before =~= ph@ + seq!['#', 'c']);
        if single {
            assert(res@ =~= ph@ + pdf_suffix(s as int, i as int, single));
        } else {
            assert(res@ =~= ph@ + pdf_suffix(s as int, i as int, single));
        }
    }
    res
}

/// The chunks of one tier-1 chunk `(s, a, e, text)` of the page block
/// `block_id` / `page`.
fn segment_chunks(
    doc_id: &str,
    block_id: &String,
    page: u32,
    seg: &(usize, usize, usize, String),
    budget: usize,
    cv: &str,
    ph: &str,
) -> (res: Vec<Chunk>)
    requires
        seg.1 <= seg.2 <= u32::MAX,
    ensures
        res@.len() == v2_count(seg.3@, budget as nat),
        forall|i: int|
            0 <= i < res@.len() ==> pdf_piece_built(
                #[trigger] res@[i],
                doc_id@,
                block_id@,
                page,
                seg.0 as int,
                seg.1 as int,
                seg.2 as int,
                seg.3@,
                i,
                budget as nat,
                cv@,
                ph@,
            ),
        forall|i: int|
            0 <= i < res@.len() ==> piece_fits((#[trigger] res@[i]).text@, effective_budget(budget as nat)),
{
    let text = &seg.3;
    let chars = chars_of(text.as_str());
    let est = text_token_estimate(&chars);
    let ghost eb = effective_budget(budget as nat);
    let pieces: Vec<String> = if est > budget as u128 {
        text_pieces(text.as_str(), budget)
    } else {
        let mut one: Vec<String> = Vec::new();
        one.push(text.clone());
        proof {
            crate::text::lemma_utf8_len_bounds(text@);
            assert(strings_view(one@) =~= seq![text@]);
        }
        one
    };
    let ghost pv = pdf_pieces(text@, budget as nat);
    proof {
        assert(strings_view(pieces@) == pv);
        assert(pieces@.len() == v2_count(text@, budget as nat));
    }
    let single = pieces.len() == 1;
    let mut out: Vec<Chunk> = Vec::new();
    let mut i: usize = 0;
    while i < pieces.len()
        invariant
            i <= pieces@.len(),
            seg.1 <= seg.2 <= u32::MAX,
            text == &seg.3,
            eb == effective_budget(budget as nat),
            strings_view(pieces@) == pv,
            pv == pdf_pieces(text@, budget as nat),
            single == (pieces@.len() == 1),
            forall|k: int| 0 <= k < pieces@.len() ==> piece_fits((#[trigger] pieces@[k])@, eb),
            out@.len() == i,
            forall|k: int|
                0 <= k < i ==> pdf_piece_built(
                    #[trigger] out@[k],
                    doc_id@,
                    block_id@,
                    page,
                    seg.0 as int,
                    seg.1 as int,
                    seg.2 as int,
                    seg.3@,
                    k,
                    budget as nat,
                    cv@,
                    ph@,
                ),
            forall|k: int| 0 <= k < i ==> piece_fits((#[trigger] out@[k]).text@, eb),
        decreases pieces@.len() - i,
    {
        let piece = pieces[i].clone();
        proof {
            assert(pv[i as int] == pieces@[i as int]@);
        }
        let mut block_ids: Vec<String> = Vec::new();
        block_ids.push(block_id.clone());
        let id_hash = pdf_hash(ph, seg.0, i, single);
        let chunk_id = id_for_chunk(doc_id, cv, &block_ids, id_hash.as_str());
        let piece_chars = chars_of(piece.as_str());
        let piece_est = text_token_estimate(&piece_chars);
        proof {
            crate::text::lemma_utf8_len_bounds(piece_chars@);
            assert(piece_fits(piece_chars@, eb));
            assert(piece_est <= usize::MAX);
            assert(strs(block_ids@) =~= seq![block_id@]);
            assert(block_ids@.map_values(|b: String| b@) =~= seq![block_id@]);
        }
        let korean = tokenize_korean_morphological(piece.as_str());
        let mut spans: Vec<SourceSpan> = Vec::new();
        spans.push(SourceSpan::Page { page, char_start: Some(seg.1 as u32), char_end: Some(seg.2 as u32) });
        let c = Chunk {
            chunk_id,
            doc_id: String::from_str(doc_id),
            block_ids,
            text: piece,
            heading_path: Vec::new(),
            source_spans: spans,
            token_estimate: piece_est as usize,
            chunker_version: String::from_str(cv),
            policy_hash: String::from_str(ph),
            tokenized_korean_text: korean,
        };
        out.push(c);
        i = i + 1;
    }
    out
}


proof fn lemma_validation_ok(blocks: Seq<Block>, m: int)
    requires
        0 <= m <= blocks.len(),
        pdf_validation(blocks, m) is None,
    ensures
        forall|k: int| 0 <= k < m ==> is_pdf_page(#[trigger] blocks[k]),
    decreases m,
{
    if m > 0 {
        lemma_validation_ok(blocks, m - 1);
    }
}

proof fn lemma_validation_stable(blocks: Seq<Block>, k: int, m: int)
    requires
        0 <= k <= m,
        pdf_validation(blocks, k) is Some,
    ensures
        pdf_validation(blocks, m) == pdf_validation(blocks, k),
    decreases m - k,
{
    if m > k {
        lemma_validation_stable(blocks, k, m - 1);
    }
}

proof fn lemma_pdf_offset_prefix(
    blocks: Seq<Block>,
    s1: Seq<(int, (int, int, int))>,
    s2: Seq<(int, (int, int, int))>,
    budget: nat,
    k: int,
)
    requires
        0 <= k <= s1.len() <= s2.len(),
        forall|i: int| 0 <= i < s1.len() ==> s1[i] == s2[i],
    ensures
        pdf_offset(blocks, s1, budget, k) == pdf_offset(blocks, s2, budget, k),
    decreases k,
{
    if k > 0 {
        lemma_pdf_offset_prefix(blocks, s1, s2, budget, k - 1);
    }
}

proof fn lemma_pdf_offset_mono(blocks: Seq<Block>, segs: Seq<(int, (int, int, int))>, budget: nat, a: int, b: int)
    requires
        0 <= a <= b,
    ensures
        pdf_offset(blocks, segs, budget, a) <= pdf_offset(blocks, segs, budget, b),
    decreases b - a,
{
    if a < b {
        lemma_pdf_offset_mono(blocks, segs, budget, a, b - 1);
    }
}

/// Appending the chunks of one more tier-1 chunk keeps `pdf_chunks`.
proof fn lemma_pdf_chunks_push(
    old_out: Seq<Chunk>,
    cs: Seq<Chunk>,
    doc: CanonicalDocument,
    segs: Seq<(int, (int, int, int))>,
    x: (int, (int, int, int)),
    budget: nat,
    cv: Seq<char>,
    ph: Seq<char>,
)
    requires
        pdf_chunks(old_out, doc, segs, budget, cv, ph),
        cs.len() == v2_count(seg_text(doc.blocks@, x), budget),
        forall|i: int|
            0 <= i < cs.len() ==> pdf_piece_built(
                #[trigger] cs[i],
                doc.doc_id@,
                doc.blocks@[x.0].common_spec().block_id@,
                page_number(doc.blocks@[x.0]),
                x.1.0,
                x.1.1,
                x.1.2,
                seg_text(doc.blocks@, x),
                i,
                budget,
                cv,
                ph,
            ),
    ensures
        pdf_chunks(old_out + cs, doc, segs.push(x), budget, cv, ph),
{
    let blocks = doc.blocks@;
    let ns = segs.push(x);
    let out = old_out + cs;
    let len = segs.len() as int;
    lemma_pdf_offset_prefix(blocks, segs, ns, budget, len);
    assert(pdf_offset(blocks, ns, budget, len + 1) == pdf_offset(blocks, ns, budget, len) + v2_count(
        seg_text(blocks, ns[len]),
        budget,
    ));
    assert(ns[len] == x);
    assert forall|k: int, i: int|
        0 <= k < ns.len() && 0 <= i < v2_count(seg_text(blocks, ns[k]), budget) implies pdf_piece_built(
        #[trigger] pdf_chunk_at(out, blocks, ns, budget, k, i),
        doc.doc_id@,
        blocks[ns[k].0].common_spec().block_id@,
        page_number(blocks[ns[k].0]),
        ns[k].1.0,
        ns[k].1.1,
        ns[k].1.2,
        seg_text(blocks, ns[k]),
        i,
        budget,
        cv,
        ph,
    ) by {
        if k < len {
            assert(ns[k] == segs[k]);
            lemma_pdf_offset_prefix(blocks, segs, ns, budget, k);
            lemma_pdf_offset_mono(blocks, segs, budget, k + 1, len);
            assert(pdf_chunk_at(out, blocks, ns, budget, k, i) == pdf_chunk_at(old_out, blocks, segs, budget, k, i));
        } else {
            assert(pdf_chunk_at(out, blocks, ns, budget, k, i) == cs[i]);
        }
    }
}

/// Page-aware PDF chunker (`pdf-page-v1.2`); see the module documentation.
#[derive(Clone, Copy, Debug)]
pub struct PdfPageV1Chunker {
    /// The tier-2 split budget in estimated tokens.
    pub max_chunk_tokens: usize,
}

impl PdfPageV1Chunker {
    pub fn chunker_version(&self) -> (res: String)
        ensures
            res@ == pdf_label(),
    {
        String::from_str("pdf-page-v1.2")
    }

    /// First 16 hex characters of the BLAKE3 digest of the policy's
    /// canonical JSON followed by the budget's little-endian bytes.
    pub fn policy_hash(&self, policy: &ChunkPolicy) -> (res: String)
        ensures
            res@ == policy_hash_spec(*policy, Some(self.max_chunk_tokens)),
            res@.len() == 16,
            forall|i: int| 0 <= i < 16 ==> is_lower_hex(#[trigger] res@[i]),
    {
        policy_hash_of(policy, Some(self.max_chunk_tokens))
    }

    /// Chunk a PDF document: every block must be a paragraph with a page
    /// span (else the error for the first block that is not); blank pages
    /// give no chunks; each chunk cites its page and a character range.
    pub fn chunk(&self, doc: &CanonicalDocument, policy: &ChunkPolicy) -> (res: Result<Vec<Chunk>, ChunkError>)
        requires
            pdf_validation(doc.blocks@, doc.blocks@.len() as int) is None ==> pages_fit_u32(doc.blocks@),
        ensures
            match pdf_validation(doc.blocks@, doc.blocks@.len() as int) {
                Some(e) => res == Err::<Vec<Chunk>, ChunkError>(e),
                None => res matches Ok(chunks) && pdf_chunks(
                    chunks@,
                    *doc,
                    doc_segments(
                        doc.blocks@,
                        doc.blocks@.len() as int,
                        target_bytes_spec(*policy),
                        overlap_bytes_spec(*policy),
                    ),
                    self.max_chunk_tokens as nat,
                    pdf_label(),
                    policy_hash_spec(*policy, Some(self.max_chunk_tokens)),
                ) && forall|k: int|
                    0 <= k < chunks@.len() ==> piece_fits(
                        (#[trigger] chunks@[k]).text@,
                        effective_budget(self.max_chunk_tokens as nat),
                    ),
            },
    {
        let n = doc.blocks.len();
        let mut k: usize = 0;
        while k < n
            invariant
                n == doc.blocks@.len(),
                k <= n,
                pdf_validation(doc.blocks@, k as int) is None,
            decreases n - k,
        {
            match &doc.blocks[k] {
                Block::Paragraph(p) => match &p.common.source_span {
                    SourceSpan::Page { .. } => {},
                    _ => {
                        proof {
                            lemma_validation_stable(doc.blocks@, k + 1, n as int);
                        }
                        return Err(ChunkError::NonPageSpan);
                    },
                },
                _ => {
                    proof {
                        lemma_validation_stable(doc.blocks@, k + 1, n as int);
                    }
                    return Err(ChunkError::NonParagraphBlock);
                },
            }
            k = k + 1;
        }
        proof {
            lemma_validation_ok(doc.blocks@, n as int);
        }
        let ph = self.policy_hash(policy);
        let cv = self.chunker_version();
        let budget = self.max_chunk_tokens;
        let t3: usize = if policy.target_tokens > usize::MAX / 3 {
            usize::MAX
        } else {
            policy.target_tokens * 3
        };
        let target_bytes: usize = if t3 == 0 {
            1
        } else {
            t3
        };
        let o3: usize = if policy.overlap_tokens > usize::MAX / 3 {
            usize::MAX
        } else {
            policy.overlap_tokens * 3
        };
        let overlap_bytes: usize = if o3 <= target_bytes / 2 {
            o3
        } else {
            target_bytes / 2
        };
        let ghost t = target_bytes_spec(*policy);
        let ghost o = overlap_bytes_spec(*policy);
        let ghost b = budget as nat;
        let ghost eb = effective_budget(b);
        let ghost blocks = doc.blocks@;
        proof {
            assert(target_bytes as nat == t);
            assert(overlap_bytes as nat == o);
            assert(doc_segments(blocks, 0, t, o) =~= Seq::<(int, (int, int, int))>::empty());
        }
        let mut out: Vec<Chunk> = Vec::new();
        let mut j: usize = 0;
        while j < n
            invariant
                n == blocks.len(),
                blocks == doc.blocks@,
                j <= n,
                forall|q: int| 0 <= q < n ==> is_pdf_page(#[trigger] blocks[q]),
                pages_fit_u32(blocks),
                t == target_bytes as nat,
                o == overlap_bytes as nat,
                b == budget as nat,
                eb == effective_budget(b),
                pdf_chunks(out@, *doc, doc_segments(blocks, j as int, t, o), b, cv@, ph@),
                forall|q: int| 0 <= q < out@.len() ==> piece_fits((#[trigger] out@[q]).text@, eb),
            decreases n - j,
        {
            let ghost before = doc_segments(blocks, j as int, t, o);
            proof {
                assert(is_pdf_page(blocks[j as int]));
                assert(doc_segments(blocks, j + 1, t, o) == before + tag_segments(
                    j as int,
                    page_segments(blocks[j as int], t, o),
                ));
            }
            match &doc.blocks[j] {
                Block::Paragraph(p) => match &p.common.source_span {
                    SourceSpan::Page { page, .. } => {
                        let chars = chars_of(p.text.as_str());
                        if is_blank(&chars) {
                            proof {
                                assert(doc_segments(blocks, j + 1, t, o) =~= before);
                            }
                        } else {
                            let segs = chunk_page(p.text.as_str(), target_bytes, overlap_bytes);
                            let ghost ps = page_segments(blocks[j as int], t, o);
                            proof {
                                lemma_chunk_page_laws(p.text@, t, o);
                                assert(ps == triples(segs@));
                                assert(page_text(blocks[j as int]) == p.text@);
                                assert(p.text@.len() <= u32::MAX);
                            }
                            let mut q: usize = 0;
                            while q < segs.len()
                                invariant
                                    q <= segs@.len(),
                                    blocks == doc.blocks@,
                                    j < n,
                                    blocks[j as int] == Block::Paragraph(*p),
                                    page_number(blocks[j as int]) == *page,
                                    page_text(blocks[j as int]) == p.text@,
                                    p.text@.len() <= u32::MAX,
                                    ps == triples(segs@),
                                    page_chunks_wf(p.text@, ps, o),
                                    forall|i: int|
                                        0 <= i < segs@.len() ==> (#[trigger] segs@[i]).3@ == p.text@.subrange(
                                            segs@[i].1 as int,
                                            segs@[i].2 as int,
                                        ),
                                    b == budget as nat,
                                    eb == effective_budget(b),
                                    pdf_chunks(
                                        out@,
                                        *doc,
                                        before + tag_segments(j as int, ps.take(q as int)),
                                        b,
                                        cv@,
                                        ph@,
                                    ),
                                    forall|r: int| 0 <= r < out@.len() ==> piece_fits((#[trigger] out@[r]).text@, eb),
                                decreases segs@.len() - q,
                            {
                                let seg = &segs[q];
                                let ghost x = (j as int, ps[q as int]);
                                proof {
                                    assert(ps[q as int] == (seg.0 as int, seg.1 as int, seg.2 as int));
                                    assert(seg_text(blocks, x) == seg.3@);
                                }
                                let mut cs = segment_chunks(
                                    doc.doc_id.as_str(),
                                    &p.common.block_id,
                                    *page,
                                    seg,
                                    budget,
                                    cv.as_str(),
                                    ph.as_str(),
                                );
                                let ghost old_out = out@;
                                let ghost csv = cs@;
                                proof {
                                    let cur = before + tag_segments(j as int, ps.take(q as int));
                                    lemma_pdf_chunks_push(old_out, csv, *doc, cur, x, b, cv@, ph@);
                                    assert(cur.push(x) =~= before + tag_segments(j as int, ps.take(q + 1)));
                                }
                                out.append(&mut cs);
                                proof {
                                    assert forall|r: int| 0 <= r < out@.len() implies piece_fits(
                                        (#[trigger] out@[r]).text@,
                                        eb,
                                    ) by {
                                        if r >= old_out.len() {
                                            assert(out@[r] == csv[r - old_out.len()]);
                                        } else {
                                            assert(out@[r] == old_out[r]);
                                        }
                                    }
                                }
                                q = q + 1;
                            }
                            proof {
                                assert(ps.take(segs@.len() as int) =~= ps);
                            }
                        }
                    },
                    _ => {
                        proof {
                            assert(false);
                        }
                    },
                },
                _ => {
                    proof {
                        assert(false);
                    }
                },
            }
            j = j + 1;
        }
        Ok(out)
    }
}

} // verus!
