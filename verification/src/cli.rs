//! Command-line helpers: the `KEBAB_READONLY` boolean, the Ctrl-C policy
//! of `kebab ingest`, and the confirmation prompts of `kebab reset`.

use vstd::prelude::*;
use crate::config::{ascii_lower, chars_are, lower_char, trim_chars, trim_spec};
use crate::hashing::{decimal, push_decimal};
use crate::text::{chars_of, join_with, string_from_chars};

verus! {

/// The `Debug` rendering of a text (`format!("{s:?}")`): the text between
/// double quotes, with quotes, backslashes and non-printable characters
/// escaped. A function of the text alone.
pub uninterp spec fn str_debug(s: Seq<char>) -> Seq<char>;

/// `format!("{s:?}")`. The contract names the result `str_debug(s)` and
/// states that it is enclosed in double quotes, as `<str as Debug>::fmt`
/// writes `"`, the escaped characters, then `"`.
#[verifier::external_body]
fn debug_string(s: &str) -> (res: String)
    ensures
        res@ == str_debug(s@),
        res@.len() >= 2,
        res@[0] == '"',
        res@.last() == '"',
{
    format!("{s:?}")
}

/// The ASCII lower-casing of a text.
pub open spec fn lower_seq(s: Seq<char>) -> Seq<char> {
    s.map_values(|c: char| ascii_lower(c))
}

/// The error text for an unrecognised boolean (already lower-cased).
pub open spec fn bool_env_error(l: Seq<char>) -> Seq<char> {
    "expected 1/0/true/false/yes/no/on/off, got "@ + str_debug(l)
}

/// `1`, `true`, `yes`, `on` are true and `0`, `false`, `no`, `off` are
/// false (ASCII case-insensitive); anything else is an error naming the
/// lower-cased value.
pub open spec fn parse_bool_env_spec(s: Seq<char>) -> Result<bool, Seq<char>> {
    let l = lower_seq(s);
    if l == seq!['1'] || l == seq!['t', 'r', 'u', 'e'] || l == seq!['y', 'e', 's'] || l == seq!['o', 'n'] {
        Ok(true)
    } else if l == seq!['0'] || l == seq!['f', 'a', 'l', 's', 'e'] || l == seq!['n', 'o'] || l == seq!['o', 'f', 'f'] {
        Ok(false)
    } else {
        Err(bool_env_error(l))
    }
}

fn lit(cs: &[char]) -> (res: Vec<char>)
    ensures
        res@ == cs@,
{
    let mut v: Vec<char> = Vec::new();
    let mut i: usize = 0;
    while i < cs.len()
        invariant
            i <= cs@.len(),
            v@ == cs@.take(i as int),
        decreases cs@.len() - i,
    {
        v.push(cs[i]);
        proof {
            assert(cs@.take(i + 1) =~= cs@.take(i as int).push(cs@[i as int]));
        }
        i = i + 1;
    }
    proof {
        assert(cs@.take(cs@.len() as int) =~= cs@);
    }
    v
}

/// Parse a boolean environment value (see `parse_bool_env_spec`).
pub fn parse_bool_env(s: &str) -> (res: Result<bool, String>)
    ensures
        match res {
            Ok(b) => parse_bool_env_spec(s@) == Ok::<bool, Seq<char>>(b),
            Err(m) => parse_bool_env_spec(s@) == Err::<bool, Seq<char>>(m@),
        },
{
    let chars = chars_of(s);
    let mut l: Vec<char> = Vec::new();
    let mut i: usize = 0;
    while i < chars.len()
        invariant
            chars@ == s@,
            i <= chars@.len(),
            l@ == lower_seq(chars@.take(i as int)),
        decreases chars@.len() - i,
    {
        l.push(lower_char(chars[i]));
        proof {
            assert(lower_seq(chars@.take(i + 1)) =~= lower_seq(chars@.take(i as int)).push(
                ascii_lower(chars@[i as int]),
            ));
        }
        i = i + 1;
    }
    proof {
        assert(chars@.take(chars@.len() as int) =~= chars@);
    }
    let t1 = lit(&['1']);
    let t2 = lit(&['t', 'r', 'u', 'e']);
    let t3 = lit(&['y', 'e', 's']);
    let t4 = lit(&['o', 'n']);
    let f1 = lit(&['0']);
    let f2 = lit(&['f', 'a', 'l', 's', 'e']);
    let f3 = lit(&['n', 'o']);
    let f4 = lit(&['o', 'f', 'f']);
    proof {
        assert(t1@ =~= seq!['1']);
        assert(t2@ =~= seq!['t', 'r', 'u', 'e']);
        assert(t3@ =~= seq!['y', 'e', 's']);
        assert(t4@ =~= seq!['o', 'n']);
        assert(f1@ =~= seq!['0']);
        assert(f2@ =~= seq!['f', 'a', 'l', 's', 'e']);
        assert(f3@ =~= seq!['n', 'o']);
        assert(f4@ =~= seq!['o', 'f', 'f']);
    }
    if chars_are(&l, &t1) || chars_are(&l, &t2) || chars_are(&l, &t3) || chars_are(&l, &t4) {
        Ok(true)
    } else if chars_are(&l, &f1) || chars_are(&l, &f2) || chars_are(&l, &f3) || chars_are(&l, &f4) {
        Ok(false)
    } else {
        let lowered = crate::text::string_from_chars(&l);
        let dbg = debug_string(lowered.as_str());
        let mut msg = String::from_str("expected 1/0/true/false/yes/no/on/off, got ");
        msg.append(dbg.as_str());
        Err(msg)
    }
}

/// What the Ctrl-C handler of `kebab ingest` does on a signal.
#[derive(PartialEq, Eq, Structural, Clone, Copy, Debug)]
pub enum SigintAction {
    /// First signal: request a cooperative cancel and print a hint.
    Cancel,
    /// A later signal: exit at once with this status (130 = 128 + SIGINT).
    Exit(i32),
}

/// The action for a signal when `prev` signals came before it.
pub fn sigint_action(prev: u8) -> (res: SigintAction)
    ensures
        res == (if prev == 0 {
            SigintAction::Cancel
        } else {
            SigintAction::Exit(130)
        }),
{
    if prev == 0 {
        SigintAction::Cancel
    } else {
        SigintAction::Exit(130)
    }
}

/// A y/N prompt answer accepts: the line, trimmed of whitespace and
/// ASCII-lowercased, is `y` or `yes`; anything else (an empty line too)
/// declines.
pub open spec fn confirms_spec(line: Seq<char>) -> bool {
    let t = lower_seq(trim_spec(line));
    t == seq!['y'] || t == seq!['y', 'e', 's']
}

/// Whether a prompt answer accepts (see `confirms_spec`).
pub fn confirmation_accepted(line: &str) -> (res: bool)
    ensures
        res == confirms_spec(line@),
{
    let chars = chars_of(line);
    let t = trim_chars(&chars);
    let mut l: Vec<char> = Vec::new();
    let mut i: usize = 0;
    while i < t.len()
        invariant
            i <= t@.len(),
            l@ == lower_seq(t@.take(i as int)),
        decreases t@.len() - i,
    {
        l.push(lower_char(t[i]));
        proof {
            assert(lower_seq(t@.take(i + 1)) =~= lower_seq(t@.take(i as int)).push(ascii_lower(t@[i as int])));
        }
        i = i + 1;
    }
    proof {
        assert(t@.take(t@.len() as int) =~= t@);
    }
    let y = lit(&['y']);
    let yes = lit(&['y', 'e', 's']);
    proof {
        assert(y@ =~= seq!['y']);
        assert(yes@ =~= seq!['y', 'e', 's']);
    }
    chars_are(&l, &y) || chars_are(&l, &yes)
}

/// Most paths listed in the orphan-purge prompt.
pub const ORPHAN_SAMPLE: usize = 5;

/// The two lines of the orphan-purge prompt for `n` orphans, the sample
/// being the first five paths joined by `", "`, followed by `", …"` when
/// there are more.
pub open spec fn orphan_prompt_spec(paths: Seq<Seq<char>>) -> (Seq<char>, Seq<char>) {
    let n = paths.len();
    (
        "Purge "@ + decimal(n) + " stored doc(s) outside the current walker scope? (no filesystem paths removed)"@,
        "  sample: "@ + join_with(paths.take(if n < 5 { n as int } else { 5 }), ", "@) + (if n > 5 {
            ", …"@
        } else {
            seq![]
        }),
    )
}

/// The prompt lines for purging `paths` (see `orphan_prompt_spec`).
pub fn orphan_prompt(paths: &Vec<String>) -> (res: (String, String))
    ensures
        (res.0@, res.1@) == orphan_prompt_spec(paths@.map_values(|p: String| p@)),
{
    let ghost pv = paths@.map_values(|p: String| p@);
    let n = paths.len();
    let mut first = chars_of("Purge ");
    push_decimal(&mut first, n as u64);
    let mut tail = chars_of(" stored doc(s) outside the current walker scope? (no filesystem paths removed)");
    first.append(&mut tail);
    let take: usize = if n < ORPHAN_SAMPLE {
        n
    } else {
        ORPHAN_SAMPLE
    };
    let mut second = chars_of("  sample: ");
    let ghost head = second@;
    let sep = chars_of(", ");
    let mut i: usize = 0;
    while i < take
        invariant
            take <= n == paths@.len(),
            pv == paths@.map_values(|p: String| p@),
            i <= take,
            sep@ == ", "@,
            second@ == head + join_with(pv.take(i as int), ", "@),
        decreases take - i,
    {
        let ghost before = second@;
        if i > 0 {
            let mut s = sep.clone();
            second.append(&mut s);
        }
        let mut p = chars_of(paths[i].as_str());
        second.append(&mut p);
        proof {
            assert(pv.take(i + 1).drop_last() =~= pv.take(i as int));
            assert(pv.take(i + 1).last() == paths@[i as int]@);
            assert(second@ =~= head + join_with(pv.take(i + 1), ", "@));
        }
        i = i + 1;
    }
    if n > ORPHAN_SAMPLE {
        let mut e = chars_of(", …");
        second.append(&mut e);
    }
    proof {
        assert(first@ =~= orphan_prompt_spec(pv).0);
        assert(second@ =~= orphan_prompt_spec(pv).1);
    }
    (string_from_chars(&first), string_from_chars(&second))
}

} // verus!
