//! Expansion of storage-path templates.
//!
//! Substitutions, in order: `{data_dir}` by the caller's data directory
//! (skipped when that is empty); the first `${XDG_DATA_HOME...}` by the
//! variable's value when set and non-empty, else by the default after
//! `:-` (empty without one); a leading `~` by the home directory. The
//! environment values are passed in by the caller.

use vstd::prelude::*;
use crate::config::Config;
use crate::text::{chars_of, string_from_chars};
use crate::tier2::opt_view;

verus! {

/// `s` with every occurrence of the non-empty `pat`, scanning left to
/// right without overlap, replaced by `rep` (`str::replace`).
pub open spec fn replace_all(s: Seq<char>, pat: Seq<char>, rep: Seq<char>) -> Seq<char>
    decreases s.len(),
{
    if pat.len() == 0 || s.len() < pat.len() {
        s
    } else if s.take(pat.len() as int) == pat {
        rep + replace_all(s.skip(pat.len() as int), pat, rep)
    } else {
        seq![s[0]] + replace_all(s.drop_first(), pat, rep)
    }
}

/// The first index `>= i` where `pat` occurs in `s`.
pub open spec fn find_from(s: Seq<char>, pat: Seq<char>, i: int) -> Option<int>
    decreases s.len() + 1 - i,
{
    if i < 0 || i + pat.len() > s.len() {
        None
    } else if s.subrange(i, i + pat.len()) == pat {
        Some(i)
    } else {
        find_from(s, pat, i + 1)
    }
}

/// `p` without leading `/` characters.
pub open spec fn trim_leading_slashes(p: Seq<char>) -> Seq<char>
    decreases p.len(),
{
    if p.len() > 0 && p[0] == '/' {
        trim_leading_slashes(p.drop_first())
    } else {
        p
    }
}

/// `Path::join` on Unix: an absolute `p` replaces `base`; otherwise `p` is
/// appended after a `/` unless `base` is empty or already ends with one.
pub open spec fn join_spec(base: Seq<char>, p: Seq<char>) -> Seq<char> {
    if p.len() > 0 && p[0] == '/' {
        p
    } else if base.len() > 0 && base.last() != '/' {
        base + seq!['/'] + p
    } else {
        base + p
    }
}

/// The replacement of an `${XDG_DATA_HOME...}` reference with body `inner`
/// (the text between `${` and `}`).
pub open spec fn xdg_replacement(inner: Seq<char>, xdg: Option<Seq<char>>) -> Seq<char> {
    match xdg {
        Some(v) if v.len() > 0 => v,
        _ => match find_from(inner, seq![':', '-'], 0) {
            Some(p) => inner.skip(p + 2),
            None => seq![],
        },
    }
}

/// The marker of an XDG data-home reference.
pub open spec fn xdg_marker() -> Seq<char> {
    seq!['$', '{', 'X', 'D', 'G', '_', 'D', 'A', 'T', 'A', '_', 'H', 'O', 'M', 'E']
}

/// Step 2: the first `${XDG_DATA_HOME...}` reference (up to the next `}`)
/// replaced.
pub open spec fn subst_xdg(s: Seq<char>, xdg: Option<Seq<char>>) -> Seq<char> {
    match find_from(s, xdg_marker(), 0) {
        Some(start) => match find_from(s, seq!['}'], start) {
            Some(close) => s.take(start) + xdg_replacement(s.subrange(start + 2, close), xdg) + s.skip(close + 1),
            None => s,
        },
        None => s,
    }
}

/// The expanded path (see the module documentation).
pub open spec fn expand_path_spec(
    raw: Seq<char>,
    data_dir: Seq<char>,
    xdg: Option<Seq<char>>,
    home: Option<Seq<char>>,
) -> Seq<char> {
    let s1 = if data_dir.len() > 0 {
        replace_all(raw, seq!['{', 'd', 'a', 't', 'a', '_', 'd', 'i', 'r', '}'], data_dir)
    } else {
        raw
    };
    let s2 = subst_xdg(s1, xdg);
    if s2.len() > 0 && s2[0] == '~' {
        match home {
            Some(h) => join_spec(h, trim_leading_slashes(s2.drop_first())),
            None => s2,
        }
    } else {
        s2
    }
}

/// Whether `pat` occurs in `s` at `i`.
fn matches_at(s: &Vec<char>, pat: &Vec<char>, i: usize) -> (res: bool)
    requires
        i <= s@.len(),
    ensures
        res == (i + pat@.len() <= s@.len() && s@.subrange(i as int, i + pat@.len()) == pat@),
{
    let n = s.len();
    if pat.len() > n - i {
        return false;
    }
    let mut k: usize = 0;
    while k < pat.len()
        invariant
            n == s@.len(),
            i + pat@.len() <= s@.len(),
            k <= pat@.len(),
            forall|j: int| 0 <= j < k ==> s@[i + j] == pat@[j],
        decreases pat@.len() - k,
    {
        if s[i + k] != pat[k] {
            proof {
                assert(s@.subrange(i as int, i + pat@.len())[k as int] != pat@[k as int]);
            }
            return false;
        }
        k = k + 1;
    }
    proof {
        assert(s@.subrange(i as int, i + pat@.len()) =~= pat@);
    }
    true
}

/// The first index `>= i` where the non-empty `pat` occurs in `s`.
fn find_exec(s: &Vec<char>, pat: &Vec<char>, i: usize) -> (res: Option<usize>)
    requires
        i <= s@.len(),
    ensures
        match res {
            Some(p) => find_from(s@, pat@, i as int) == Some(p as int),
            None => find_from(s@, pat@, i as int) is None,
        },
{
    let mut k = i;
    while k < s.len()
        invariant
            i <= k <= s@.len(),
            find_from(s@, pat@, k as int) == find_from(s@, pat@, i as int),
        decreases s@.len() - k,
    {
        if matches_at(s, pat, k) {
            return Some(k);
        }
        k = k + 1;
    }
    if matches_at(s, pat, k) {
        return Some(k);
    }
    proof {
        assert(find_from(s@, pat@, k + 1) is None);
    }
    None
}

fn push_all(out: &mut Vec<char>, s: &Vec<char>, a: usize, b: usize)
    requires
        a <= b <= s@.len(),
    ensures
        final(out)@ == old(out)@ + s@.subrange(a as int, b as int),
{
    let ghost start = out@;
    let mut k = a;
    while k < b
        invariant
            a <= k <= b <= s@.len(),
            out@ == start + s@.subrange(a as int, k as int),
        decreases b - k,
    {
        out.push(s[k]);
        proof {
            assert(s@.subrange(a as int, k + 1) =~= s@.subrange(a as int, k as int).push(s@[k as int]));
        }
        k = k + 1;
    }
}

/// Replace every `pat` in `s` by `rep`.
fn replace_all_exec(s: &Vec<char>, pat: &Vec<char>, rep: &Vec<char>) -> (res: Vec<char>)
    requires
        pat@.len() > 0,
    ensures
        res@ == replace_all(s@, pat@, rep@),
{
    let mut out: Vec<char> = Vec::new();
    let mut i: usize = 0;
    proof {
        assert(s@.skip(0) =~= s@);
    }
    while i < s.len()
        invariant
            pat@.len() > 0,
            i <= s@.len(),
            out@ + replace_all(s@.skip(i as int), pat@, rep@) == replace_all(s@, pat@, rep@),
        decreases s@.len() - i,
    {
        let ghost rest = s@.skip(i as int);
        if matches_at(s, pat, i) {
            proof {
                assert(rest.take(pat@.len() as int) =~= s@.subrange(i as int, i + pat@.len()));
                assert(rest.skip(pat@.len() as int) =~= s@.skip(i + pat@.len()));
                assert(out@ + rep@ + replace_all(s@.skip(i + pat@.len()), pat@, rep@) =~= out@ + (rep@
                    + replace_all(rest.skip(pat@.len() as int), pat@, rep@)));
            }
            push_all(&mut out, rep, 0, rep.len());
            proof {
                assert(rep@.subrange(0, rep@.len() as int) =~= rep@);
            }
            i = i + pat.len();
        } else {
            proof {
                if rest.len() >= pat@.len() {
                    assert(rest.take(pat@.len() as int) =~= s@.subrange(i as int, i + pat@.len()));
                    assert(rest.drop_first() =~= s@.skip(i + 1));
                    assert(out@.push(s@[i as int]) + replace_all(s@.skip(i + 1), pat@, rep@) =~= out@ + (seq![
                        rest[0],
                    ] + replace_all(rest.drop_first(), pat@, rep@)));
                } else {
                    assert(replace_all(rest, pat@, rep@) == rest);
                    assert(replace_all(s@.skip(i + 1), pat@, rep@) == s@.skip(i + 1));
                    assert(out@.push(s@[i as int]) + s@.skip(i + 1) =~= out@ + rest);
                }
            }
            out.push(s[i]);
            i = i + 1;
        }
    }
    proof {
        assert(s@.skip(i as int) =~= Seq::<char>::empty());
        assert(out@ + Seq::<char>::empty() =~= out@);
    }
    out
}

fn lit_chars(v: &str) -> (res: Vec<char>)
    ensures
        res@ == v@,
{
    chars_of(v)
}

/// `base` joined with `p` (see `join_spec`).
fn join_exec(base: &Vec<char>, p: &Vec<char>) -> (res: Vec<char>)
    ensures
        res@ == join_spec(base@, p@),
{
    if p.len() > 0 && p[0] == '/' {
        let mut out: Vec<char> = Vec::new();
        push_all(&mut out, p, 0, p.len());
        proof {
            assert(p@.subrange(0, p@.len() as int) =~= p@);
        }
        return out;
    }
    let mut out: Vec<char> = Vec::new();
    push_all(&mut out, base, 0, base.len());
    if base.len() > 0 && base[base.len() - 1] != '/' {
        out.push('/');
    }
    push_all(&mut out, p, 0, p.len());
    proof {
        assert(p@.subrange(0, p@.len() as int) =~= p@);
        assert(base@.subrange(0, base@.len() as int) =~= base@);
        if base@.len() > 0 {
            assert(base@.last() == base@[base@.len() - 1]);
        }
        assert(out@ =~= join_spec(base@, p@));
    }
    out
}

fn subst_xdg_exec(s: &Vec<char>, xdg: &Option<String>) -> (res: Vec<char>)
    ensures
        res@ == subst_xdg(s@, opt_view(*xdg)),
{
    let mut marker: Vec<char> = Vec::new();
    marker.push('$');
    marker.push('{');
    marker.push('X');
    marker.push('D');
    marker.push('G');
    marker.push('_');
    marker.push('D');
    marker.push('A');
    marker.push('T');
    marker.push('A');
    marker.push('_');
    marker.push('H');
    marker.push('O');
    marker.push('M');
    marker.push('E');
    proof {
        assert(marker@ =~= xdg_marker());
    }
    let start = match find_exec(s, &marker, 0) {
        Some(p) => p,
        None => {
            let mut out: Vec<char> = Vec::new();
            push_all(&mut out, s, 0, s.len());
            proof {
                assert(s@.subrange(0, s@.len() as int) =~= s@);
            }
            return out;
        },
    };
    let mut close_pat: Vec<char> = Vec::new();
    close_pat.push('}');
    proof {
        assert(close_pat@ =~= seq!['}']);
        lemma_find_from_range(s@, xdg_marker(), 0);
    }
    let close = match find_exec(s, &close_pat, start) {
        Some(p) => p,
        None => {
            let mut out: Vec<char> = Vec::new();
            push_all(&mut out, s, 0, s.len());
            proof {
                assert(s@.subrange(0, s@.len() as int) =~= s@);
            }
            return out;
        },
    };
    proof {
        lemma_find_from_range(s@, seq!['}'], start as int);
        assert(s@.subrange(start as int, start + 15) == xdg_marker());
        assert(s@[start as int] == '$' && s@[start + 1] == '{') by {
            assert(s@.subrange(start as int, start + 15)[0] == s@[start as int]);
            assert(s@.subrange(start as int, start + 15)[1] == s@[start + 1]);
        }
        assert(s@[close as int] == '}') by {
            assert(s@.subrange(close as int, close + 1)[0] == s@[close as int]);
        }
    }
    let mut inner: Vec<char> = Vec::new();
    push_all(&mut inner, s, start + 2, close);
    let replacement: Vec<char> = match xdg {
        Some(v) if !v.as_str().is_empty() => chars_of(v.as_str()),
        _ => {
            let mut sep: Vec<char> = Vec::new();
            sep.push(':');
            sep.push('-');
            proof {
                assert(sep@ =~= seq![':', '-']);
                assert(inner@ =~= s@.subrange(start + 2, close as int));
            }
            match find_exec(&inner, &sep, 0) {
                Some(p) => {
                    proof {
                        lemma_find_from_range(inner@, seq![':', '-'], 0);
                    }
                    let mut d: Vec<char> = Vec::new();
                    push_all(&mut d, &inner, p + 2, inner.len());
                    proof {
                        assert(d@ =~= inner@.skip(p + 2));
                    }
                    d
                },
                None => Vec::new(),
            }
        },
    };
    proof {
        assert(inner@ =~= s@.subrange(start + 2, close as int));
        assert(replacement@ == xdg_replacement(s@.subrange(start + 2, close as int), opt_view(*xdg)));
    }
    let n = s.len();
    let mut out: Vec<char> = Vec::new();
    push_all(&mut out, s, 0, start);
    push_all(&mut out, &replacement, 0, replacement.len());
    push_all(&mut out, s, close + 1, n);
    proof {
        assert(replacement@.subrange(0, replacement@.len() as int) =~= replacement@);
        assert(out@ =~= s@.take(start as int) + replacement@ + s@.skip(close + 1));
    }
    out
}

proof fn lemma_find_from_range(s: Seq<char>, pat: Seq<char>, i: int)
    ensures
        find_from(s, pat, i) matches Some(p) ==> i <= p && p + pat.len() <= s.len() && s.subrange(p, p + pat.len())
            == pat,
    decreases s.len() + 1 - i,
{
    if !(i < 0 || i + pat.len() > s.len()) && s.subrange(i, i + pat.len()) != pat {
        lemma_find_from_range(s, pat, i + 1);
    }
}

/// Expand a storage-path template; `xdg_data_home` and `home` are the
/// values of `XDG_DATA_HOME` and `HOME` (see `expand_path_spec`).
pub fn expand_path(raw: &str, data_dir: &str, xdg_data_home: &Option<String>, home: &Option<String>) -> (res: String)
    ensures
        res@ == expand_path_spec(raw@, data_dir@, opt_view(*xdg_data_home), opt_view(*home)),
{
    let raw_chars = chars_of(raw);
    let dd = chars_of(data_dir);
    let s1: Vec<char> = if dd.len() > 0 {
        let mut pat: Vec<char> = Vec::new();
        pat.push('{');
        pat.push('d');
        pat.push('a');
        pat.push('t');
        pat.push('a');
        pat.push('_');
        pat.push('d');
        pat.push('i');
        pat.push('r');
        pat.push('}');
        proof {
            assert(pat@ =~= seq!['{', 'd', 'a', 't', 'a', '_', 'd', 'i', 'r', '}']);
        }
        replace_all_exec(&raw_chars, &pat, &dd)
    } else {
        raw_chars
    };
    let s2 = subst_xdg_exec(&s1, xdg_data_home);
    if s2.len() > 0 && s2[0] == '~' {
        match home {
            Some(h) => {
                let hc = chars_of(h.as_str());
                let mut k: usize = 1;
                proof {
                    assert(s2@.subrange(1, s2@.len() as int) =~= s2@.drop_first());
                }
                while k < s2.len() && s2[k] == '/'
                    invariant
                        1 <= k <= s2@.len(),
                        trim_leading_slashes(s2@.subrange(1, s2@.len() as int)) == trim_leading_slashes(
                            s2@.subrange(k as int, s2@.len() as int),
                        ),
                    decreases s2@.len() - k,
                {
                    proof {
                        let t = s2@.subrange(k as int, s2@.len() as int);
                        assert(t[0] == s2@[k as int]);
                        assert(t.drop_first() =~= s2@.subrange(k + 1, s2@.len() as int));
                    }
                    k = k + 1;
                }
                let mut rest: Vec<char> = Vec::new();
                push_all(&mut rest, &s2, k, s2.len());
                proof {
                    let t = s2@.subrange(k as int, s2@.len() as int);
                    if t.len() > 0 {
                        assert(t[0] == s2@[k as int]);
                    }
                    assert(rest@ == trim_leading_slashes(s2@.drop_first()));
                }
                let joined = join_exec(&hc, &rest);
                return string_from_chars(&joined);
            },
            None => {},
        }
    }
    string_from_chars(&s2)
}

/// The expanded path, joined onto `base_dir` when it is still relative
/// (does not start with `/`).
pub open spec fn expand_path_with_base_spec(
    raw: Seq<char>,
    data_dir: Seq<char>,
    base_dir: Seq<char>,
    xdg: Option<Seq<char>>,
    home: Option<Seq<char>>,
) -> Seq<char> {
    let e = expand_path_spec(raw, data_dir, xdg, home);
    if e.len() > 0 && e[0] == '/' {
        e
    } else {
        join_spec(base_dir, e)
    }
}

/// Expand a template, then resolve a relative result against `base_dir`.
pub fn expand_path_with_base(
    raw: &str,
    data_dir: &str,
    base_dir: &str,
    xdg_data_home: &Option<String>,
    home: &Option<String>,
) -> (res: String)
    ensures
        res@ == expand_path_with_base_spec(raw@, data_dir@, base_dir@, opt_view(*xdg_data_home), opt_view(*home)),
{
    let e = expand_path(raw, data_dir, xdg_data_home, home);
    let ec = chars_of(e.as_str());
    if ec.len() > 0 && ec[0] == '/' {
        e
    } else {
        let bc = chars_of(base_dir);
        let joined = join_exec(&bc, &ec);
        string_from_chars(&joined)
    }
}


/// `base` joined with each of `parts` in turn.
pub open spec fn join_all(base: Seq<char>, parts: Seq<Seq<char>>) -> Seq<char>
    decreases parts.len(),
{
    if parts.len() == 0 {
        base
    } else {
        join_spec(join_all(base, parts.drop_last()), parts.last())
    }
}

/// A per-user directory: `custom` (an `XDG_*_HOME` value) joined with
/// `tail` when set and non-empty; else the home directory joined with
/// `home_rel` and then `tail`; else `fallback`.
pub open spec fn xdg_path_spec(
    custom: Option<Seq<char>>,
    home: Option<Seq<char>>,
    home_rel: Seq<Seq<char>>,
    tail: Seq<Seq<char>>,
    fallback: Seq<char>,
) -> Seq<char> {
    match custom {
        Some(c) if c.len() > 0 => join_all(c, tail),
        _ => match home {
            Some(h) => join_all(join_all(h, home_rel), tail),
            None => fallback,
        },
    }
}

fn join_all_exec(base: Vec<char>, parts: &Vec<&str>) -> (res: Vec<char>)
    ensures
        res@ == join_all(base@, parts@.map_values(|p: &str| p@)),
{
    let ghost pv = parts@.map_values(|p: &str| p@);
    let mut cur = base;
    let ghost b0 = base@;
    let mut i: usize = 0;
    proof {
        assert(pv.take(0) =~= Seq::<Seq<char>>::empty());
    }
    while i < parts.len()
        invariant
            i <= parts@.len(),
            pv == parts@.map_values(|p: &str| p@),
            cur@ == join_all(b0, pv.take(i as int)),
        decreases parts@.len() - i,
    {
        let pc = chars_of(parts[i]);
        cur = join_exec(&cur, &pc);
        proof {
            assert(pv.take(i + 1).drop_last() =~= pv.take(i as int));
            assert(pv.take(i + 1).last() == parts@[i as int]@);
        }
        i = i + 1;
    }
    proof {
        assert(pv.take(parts@.len() as int) =~= pv);
    }
    cur
}

fn xdg_path(
    custom: &Option<String>,
    home: &Option<String>,
    home_rel: &Vec<&str>,
    tail: &Vec<&str>,
    fallback: &str,
) -> (res: String)
    ensures
        res@ == xdg_path_spec(
            opt_view(*custom),
            opt_view(*home),
            home_rel@.map_values(|p: &str| p@),
            tail@.map_values(|p: &str| p@),
            fallback@,
        ),
{
    match custom {
        Some(c) => {
            if !c.as_str().is_empty() {
                let r = join_all_exec(chars_of(c.as_str()), tail);
                return string_from_chars(&r);
            }
        },
        None => {},
    }
    match home {
        Some(h) => {
            let base = join_all_exec(chars_of(h.as_str()), home_rel);
            let r = join_all_exec(base, tail);
            string_from_chars(&r)
        },
        None => String::from_str(fallback),
    }
}

impl Config {
    /// `$XDG_CONFIG_HOME/kebab/config.toml`, else
    /// `$HOME/.config/kebab/config.toml`, else `./kebab/config.toml`.
    pub fn xdg_config_path(xdg_config_home: &Option<String>, home: &Option<String>) -> (res: String)
        ensures
            res@ == xdg_path_spec(
                opt_view(*xdg_config_home),
                opt_view(*home),
                seq![".config"@],
                seq!["kebab"@, "config.toml"@],
                "./kebab/config.toml"@,
            ),
    {
        let mut rel: Vec<&str> = Vec::new();
        rel.push(".config");
        let mut tail: Vec<&str> = Vec::new();
        tail.push("kebab");
        tail.push("config.toml");
        proof {
            assert(rel@.map_values(|p: &str| p@) =~= seq![".config"@]);
            assert(tail@.map_values(|p: &str| p@) =~= seq!["kebab"@, "config.toml"@]);
        }
        xdg_path(xdg_config_home, home, &rel, &tail, "./kebab/config.toml")
    }

    /// `$XDG_DATA_HOME/kebab`, else `$HOME/.local/share/kebab`, else
    /// `./kebab-data`.
    pub fn xdg_data_dir(xdg_data_home: &Option<String>, home: &Option<String>) -> (res: String)
        ensures
            res@ == xdg_path_spec(
                opt_view(*xdg_data_home),
                opt_view(*home),
                seq![".local"@, "share"@],
                seq!["kebab"@],
                "./kebab-data"@,
            ),
    {
        let mut rel: Vec<&str> = Vec::new();
        rel.push(".local");
        rel.push("share");
        let mut tail: Vec<&str> = Vec::new();
        tail.push("kebab");
        proof {
            assert(rel@.map_values(|p: &str| p@) =~= seq![".local"@, "share"@]);
            assert(tail@.map_values(|p: &str| p@) =~= seq!["kebab"@]);
        }
        xdg_path(xdg_data_home, home, &rel, &tail, "./kebab-data")
    }

    /// `$XDG_CACHE_HOME/kebab`, else `$HOME/.cache/kebab`, else
    /// `./kebab-cache`.
    pub fn xdg_cache_dir(xdg_cache_home: &Option<String>, home: &Option<String>) -> (res: String)
        ensures
            res@ == xdg_path_spec(
                opt_view(*xdg_cache_home),
                opt_view(*home),
                seq![".cache"@],
                seq!["kebab"@],
                "./kebab-cache"@,
            ),
    {
        let mut rel: Vec<&str> = Vec::new();
        rel.push(".cache");
        let mut tail: Vec<&str> = Vec::new();
        tail.push("kebab");
        proof {
            assert(rel@.map_values(|p: &str| p@) =~= seq![".cache"@]);
            assert(tail@.map_values(|p: &str| p@) =~= seq!["kebab"@]);
        }
        xdg_path(xdg_cache_home, home, &rel, &tail, "./kebab-cache")
    }

    /// `$XDG_STATE_HOME/kebab`, else `$HOME/.local/state/kebab`, else
    /// `./kebab-state`.
    pub fn xdg_state_dir(xdg_state_home: &Option<String>, home: &Option<String>) -> (res: String)
        ensures
            res@ == xdg_path_spec(
                opt_view(*xdg_state_home),
                opt_view(*home),
                seq![".local"@, "state"@],
                seq!["kebab"@],
                "./kebab-state"@,
            ),
    {
        let mut rel: Vec<&str> = Vec::new();
        rel.push(".local");
        rel.push("state");
        let mut tail: Vec<&str> = Vec::new();
        tail.push("kebab");
        proof {
            assert(rel@.map_values(|p: &str| p@) =~= seq![".local"@, "state"@]);
            assert(tail@.map_values(|p: &str| p@) =~= seq!["kebab"@]);
        }
        xdg_path(xdg_state_home, home, &rel, &tail, "./kebab-state")
    }

    /// `workspace.root` expanded and, when still relative, resolved
    /// against the config file's directory (or `cwd` without one).
    pub fn resolve_workspace_root(&self, cwd: &str, xdg_data_home: &Option<String>, home: &Option<String>) -> (res: String)
        ensures
            res@ == expand_path_with_base_spec(
                self.workspace.root@,
                seq![],
                match self.source_dir {
                    Some(d) => d@,
                    None => cwd@,
                },
                opt_view(*xdg_data_home),
                opt_view(*home),
            ),
    {
        let empty = "";
        proof {
            reveal_strlit("");
        }
        match &self.source_dir {
            Some(d) => expand_path_with_base(self.workspace.root.as_str(), empty, d.as_str(), xdg_data_home, home),
            None => expand_path_with_base(self.workspace.root.as_str(), empty, cwd, xdg_data_home, home),
        }
    }
}

} // verus!
