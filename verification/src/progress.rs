//! `kebab ingest` progress display: the rendering mode, the path shown on
//! the progress bar, and the ranking of the slowest assets for the
//! end-of-run summary.

use vstd::prelude::*;
use crate::text::{chars_of, string_from_chars};

verus! {

/// Number of slowest assets surfaced in the end-of-run summary.
pub const SLOWEST_TOP_N: usize = 5;

/// Rendering mode of the progress display, fixed per run.
#[derive(PartialEq, Eq, Structural, Clone, Copy, Debug)]
pub enum ProgressMode {
    /// Line-delimited progress records on stdout; stderr silent.
    Json,
    /// A progress bar (terminal) or one short line per event on stderr.
    Human { tty: bool, quiet: bool },
}

impl ProgressMode {
    /// The mode for the `--json` / `--quiet` flags and `KEBAB_PROGRESS=plain`
    /// (`plain_env`), given whether stderr is a terminal: JSON takes
    /// priority; otherwise human mode, on a terminal unless `plain_env`.
    pub fn from_flags(json: bool, quiet: bool, plain_env: bool, stderr_is_terminal: bool) -> (res: Self)
        ensures
            res == (if json {
                ProgressMode::Json
            } else {
                ProgressMode::Human { tty: !plain_env && stderr_is_terminal, quiet }
            }),
    {
        if json {
            ProgressMode::Json
        } else {
            ProgressMode::Human { tty: !plain_env && stderr_is_terminal, quiet }
        }
    }
}

/// Character budget of the path shown on the progress bar.
pub const ABBREVIATE_MAX: usize = 48;

/// A path of at most 48 characters as is; a longer one as `…` followed by
/// its last 47 characters.
pub open spec fn abbreviate_spec(p: Seq<char>) -> Seq<char> {
    if p.len() <= 48 {
        p
    } else {
        seq!['…'] + p.skip(p.len() - 47)
    }
}

/// Shorten an over-long path for the progress bar, keeping its tail.
pub fn abbreviate_path(path: &str) -> (res: String)
    ensures
        res@ == abbreviate_spec(path@),
{
    let chars = chars_of(path);
    let n = chars.len();
    if n <= ABBREVIATE_MAX {
        return String::from_str(path);
    }
    let mut out: Vec<char> = Vec::new();
    out.push('…');
    let mut k = n - (ABBREVIATE_MAX - 1);
    let ghost start = k;
    while k < n
        invariant
            n == chars@.len(),
            start == n - 47,
            start <= k <= n,
            out@ == seq!['…'] + chars@.subrange(start as int, k as int),
        decreases n - k,
    {
        out.push(chars[k]);
        proof {
            assert(chars@.subrange(start as int, k + 1) =~= chars@.subrange(start as int, k as int).push(
                chars@[k as int],
            ));
        }
        k = k + 1;
    }
    proof {
        assert(chars@.subrange(start as int, n as int) =~= chars@.skip(n - 47));
    }
    string_from_chars(&out)
}

// ---------------------------------------------------------------------------
// Slowest assets

/// Lexicographic order of texts by code point (the order of `String`).
pub open spec fn str_lt(a: Seq<char>, b: Seq<char>) -> bool
    decreases a.len(),
{
    if a.len() == 0 {
        b.len() > 0
    } else if b.len() == 0 {
        false
    } else if a[0] != b[0] {
        (a[0] as u32) < (b[0] as u32)
    } else {
        str_lt(a.drop_first(), b.drop_first())
    }
}

/// `x` ranks strictly before `y`: more time, or equal time and a smaller
/// path.
pub open spec fn ranks_before(x: (Seq<char>, u64), y: (Seq<char>, u64)) -> bool {
    x.1 > y.1 || (x.1 == y.1 && str_lt(x.0, y.0))
}

/// `x` may come before `y`: `y` does not rank strictly before `x`.
pub open spec fn ranks_no_later(x: (Seq<char>, u64), y: (Seq<char>, u64)) -> bool {
    !ranks_before(y, x)
}

/// The entries in rank order: every entry may come before each later one.
pub open spec fn rank_sorted(s: Seq<(Seq<char>, u64)>) -> bool {
    forall|i: int, j: int| 0 <= i < j < s.len() ==> ranks_no_later(#[trigger] s[i], #[trigger] s[j])
}

/// The index at which `x` is inserted into the ranked `s`: before the
/// first entry it ranks strictly before, after all others.
pub open spec fn insert_pos(s: Seq<(Seq<char>, u64)>, x: (Seq<char>, u64), k: int) -> int
    decreases s.len() - k,
{
    if k >= s.len() {
        s.len() as int
    } else if ranks_before(x, s[k]) {
        k
    } else {
        insert_pos(s, x, k + 1)
    }
}

/// The entries of `s` in rank order, by insertion.
pub open spec fn rank_sort(s: Seq<(Seq<char>, u64)>) -> Seq<(Seq<char>, u64)>
    decreases s.len(),
{
    if s.len() == 0 {
        seq![]
    } else {
        let r = rank_sort(s.drop_last());
        r.insert(insert_pos(r, s.last(), 0), s.last())
    }
}

pub open spec fn timings_view(t: Seq<(String, u64)>) -> Seq<(Seq<char>, u64)> {
    t.map_values(|e: (String, u64)| (e.0@, e.1))
}

proof fn lemma_str_lt_trans(a: Seq<char>, b: Seq<char>, c: Seq<char>)
    requires
        str_lt(a, b),
        str_lt(b, c),
    ensures
        str_lt(a, c),
    decreases a.len(),
{
    if a.len() > 0 && b.len() > 0 && c.len() > 0 && a[0] == b[0] && b[0] == c[0] {
        lemma_str_lt_trans(a.drop_first(), b.drop_first(), c.drop_first());
    }
}

proof fn lemma_str_lt_irrefl(a: Seq<char>)
    ensures
        !str_lt(a, a),
    decreases a.len(),
{
    if a.len() > 0 {
        lemma_str_lt_irrefl(a.drop_first());
    }
}

proof fn lemma_insert_pos(s: Seq<(Seq<char>, u64)>, x: (Seq<char>, u64), k: int)
    requires
        0 <= k <= s.len(),
        forall|q: int| 0 <= q < k ==> !ranks_before(x, #[trigger] s[q]),
    ensures
        k <= insert_pos(s, x, k) <= s.len(),
        forall|q: int| 0 <= q < insert_pos(s, x, k) ==> !ranks_before(x, #[trigger] s[q]),
        insert_pos(s, x, k) < s.len() ==> ranks_before(x, s[insert_pos(s, x, k)]),
    decreases s.len() - k,
{
    if k < s.len() && !ranks_before(x, s[k]) {
        lemma_insert_pos(s, x, k + 1);
    }
}

/// Ranking an entry list gives the same entries, in rank order.
pub proof fn lemma_rank_sort(s: Seq<(Seq<char>, u64)>)
    ensures
        rank_sorted(rank_sort(s)),
        rank_sort(s).to_multiset() == s.to_multiset(),
        rank_sort(s).len() == s.len(),
    decreases s.len(),
{
    broadcast use vstd::seq_lib::group_to_multiset_ensures;

    if s.len() > 0 {
        let r = rank_sort(s.drop_last());
        lemma_rank_sort(s.drop_last());
        let x = s.last();
        lemma_insert_pos(r, x, 0);
        let p = insert_pos(r, x, 0);
        let t = r.insert(p, x);
        r.insert_ensures(p, x);
        assert forall|i: int, j: int| 0 <= i < j < t.len() implies ranks_no_later(#[trigger] t[i], #[trigger] t[j]) by {
            if j < p {
                assert(t[i] == r[i] && t[j] == r[j]);
            } else if j == p {
                assert(t[i] == r[i]);
                assert(!ranks_before(x, r[i]));
            } else if i < p {
                assert(t[i] == r[i] && t[j] == r[j - 1]);
                assert(ranks_no_later(r[i], r[j - 1]));
            } else if i == p {
                assert(t[j] == r[j - 1]);
                assert(ranks_before(x, r[p]));
                if j - 1 > p {
                    assert(ranks_no_later(r[p], r[j - 1]));
                }
                let a = r[p];
                let b = r[j - 1];
                if ranks_before(b, x) {
                    if b.1 == x.1 && a.1 == x.1 {
                        if j - 1 > p {
                            lemma_str_lt_trans(b.0, x.0, a.0);
                        } else {
                            lemma_str_lt_trans(x.0, a.0, x.0);
                            lemma_str_lt_irrefl(x.0);
                        }
                    }
                }
            } else {
                assert(t[i] == r[i - 1] && t[j] == r[j - 1]);
                assert(ranks_no_later(r[i - 1], r[j - 1]));
            }
        }
        assert(s.drop_last().push(x) =~= s);
    }
}

/// Insert `x` into the ranked vector `v` at its rank position.
fn insert_ranked(v: &mut Vec<(String, u64)>, x: (String, u64))
    ensures
        final(v)@.len() == old(v)@.len() + 1,
        timings_view(final(v)@) == timings_view(old(v)@).insert(
            insert_pos(timings_view(old(v)@), (x.0@, x.1), 0),
            (x.0@, x.1),
        ),
{
    let ghost tv = timings_view(v@);
    let ghost xv = (x.0@, x.1);
    let xc = chars_of(x.0.as_str());
    let mut p: usize = 0;
    let mut found = false;
    while !found && p < v.len()
        invariant
            p <= v@.len(),
            tv == timings_view(v@),
            xv == (x.0@, x.1),
            xc@ == x.0@,
            !found ==> insert_pos(tv, xv, p as int) == insert_pos(tv, xv, 0),
            found ==> p < v@.len() && p as int == insert_pos(tv, xv, 0),
        decreases v@.len() - p + (if found { 0int } else { 1int }),
    {
        let e = &v[p];
        let ec = chars_of(e.0.as_str());
        proof {
            assert(tv[p as int] == (e.0@, e.1));
        }
        let before = x.1 > e.1 || (x.1 == e.1 && chars_lt(&xc, &ec));
        if before {
            found = true;
        } else {
            p = p + 1;
        }
    }
    let ghost old_v = v@;
    v.insert(p, x);
    proof {
        assert(timings_view(v@) =~= timings_view(old_v).insert(p as int, xv));
    }
}

/// Whether `a` is lexicographically before `b`.
fn chars_lt(a: &Vec<char>, b: &Vec<char>) -> (res: bool)
    ensures
        res == str_lt(a@, b@),
{
    let mut i: usize = 0;
    proof {
        assert(a@.skip(0) =~= a@);
        assert(b@.skip(0) =~= b@);
    }
    while i < a.len() && i < b.len() && a[i] == b[i]
        invariant
            i <= a@.len(),
            i <= b@.len(),
            str_lt(a@, b@) == str_lt(a@.skip(i as int), b@.skip(i as int)),
        decreases a@.len() - i,
    {
        proof {
            assert(a@.skip(i as int).drop_first() =~= a@.skip(i + 1));
            assert(b@.skip(i as int).drop_first() =~= b@.skip(i + 1));
            assert(a@.skip(i as int)[0] == a@[i as int]);
            assert(b@.skip(i as int)[0] == b@[i as int]);
        }
        i = i + 1;
    }
    proof {
        if i < a@.len() {
            assert(a@.skip(i as int)[0] == a@[i as int]);
        }
        if i < b@.len() {
            assert(b@.skip(i as int)[0] == b@[i as int]);
        }
    }
    if i == a.len() {
        i < b.len()
    } else if i == b.len() {
        false
    } else {
        (a[i] as u32) < (b[i] as u32)
    }
}

/// The `n` slowest assets of `timings`: the entries in rank order (more
/// time first, ties by path), the first `min(n, len)` of them.
pub fn slowest_assets(timings: &Vec<(String, u64)>, n: usize) -> (res: Vec<(String, u64)>)
    ensures
        timings_view(res@) == rank_sort(timings_view(timings@)).take(
            if n < timings@.len() { n as int } else { timings@.len() as int },
        ),
{
    let ghost tv = timings_view(timings@);
    let mut sorted: Vec<(String, u64)> = Vec::new();
    let mut i: usize = 0;
    proof {
        assert(tv.take(0) =~= Seq::<(Seq<char>, u64)>::empty());
        assert(timings_view(sorted@) =~= Seq::<(Seq<char>, u64)>::empty());
    }
    while i < timings.len()
        invariant
            i <= timings@.len(),
            tv == timings_view(timings@),
            timings_view(sorted@) == rank_sort(tv.take(i as int)),
            sorted@.len() == i,
        decreases timings@.len() - i,
    {
        let e = &timings[i];
        let x = (e.0.clone(), e.1);
        proof {
            assert(tv.take(i + 1).drop_last() =~= tv.take(i as int));
            assert(tv.take(i + 1).last() == (e.0@, e.1));
        }
        insert_ranked(&mut sorted, x);
        i = i + 1;
    }
    proof {
        assert(tv.take(timings@.len() as int) =~= tv);
    }
    let k = if n < sorted.len() {
        n
    } else {
        sorted.len()
    };
    sorted.truncate(k);
    proof {
        assert(timings_view(sorted@) =~= rank_sort(tv).take(k as int));
    }
    sorted
}

} // verus!
