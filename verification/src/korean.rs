//! Korean morphological tokenization for lexical search.
//!
//! A text is segmented with the ko-dic dictionary; each morpheme is kept,
//! and a Hangul-only morpheme of three or more characters is supplemented
//! with its two-character sliding windows, so a two-character query still
//! hits a compound noun. The tokens are joined by single spaces.

use vstd::prelude::*;
use crate::text::{chars_of, join_with, string_from_chars, strings_view};

verus! {

/// Rust's `char::is_whitespace`: the Unicode `White_Space` property.
pub open spec fn is_ws(c: char) -> bool {
    let u = c as u32;
    (0x09 <= u && u <= 0x0D) || u == 0x20 || u == 0x85 || u == 0xA0 || u == 0x1680 || (0x2000 <= u
        && u <= 0x200A) || u == 0x2028 || u == 0x2029 || u == 0x202F || u == 0x205F || u == 0x3000
}

/// Every character of `s` is whitespace (so `s.trim()` is empty).
pub open spec fn all_ws(s: Seq<char>) -> bool {
    forall|i: int| 0 <= i < s.len() ==> is_ws(#[trigger] s[i])
}

/// A Hangul syllable or jamo.
pub open spec fn is_hangul(c: char) -> bool {
    let u = c as u32;
    (0xAC00 <= u && u <= 0xD7A3) || (0x1100 <= u && u <= 0x11FF) || (0x3130 <= u && u <= 0x318F)
}

pub open spec fn all_hangul(s: Seq<char>) -> bool {
    forall|i: int| 0 <= i < s.len() ==> is_hangul(#[trigger] s[i])
}

/// The two-character sliding windows of `s`.
pub open spec fn windows2(s: Seq<char>) -> Seq<Seq<char>> {
    Seq::new((if s.len() >= 1 { s.len() - 1 } else { 0 }) as nat, |k: int| s.subrange(k, k + 2))
}

/// A morpheme followed by its supplement windows when it is Hangul-only
/// and at least three characters long.
pub open spec fn morpheme_tokens(m: Seq<char>) -> Seq<Seq<char>> {
    if m.len() >= 3 && all_hangul(m) {
        seq![m] + windows2(m)
    } else {
        seq![m]
    }
}

/// All tokens of a morpheme sequence, in order.
pub open spec fn expand_morphemes(ms: Seq<Seq<char>>) -> Seq<Seq<char>>
    decreases ms.len(),
{
    if ms.len() == 0 {
        seq![]
    } else {
        expand_morphemes(ms.drop_last()) + morpheme_tokens(ms.last())
    }
}

/// The ko-dic morpheme surfaces of `text` (lindera, normal mode), or
/// `None` when the dictionary cannot be loaded or segmentation fails.
pub uninterp spec fn ko_dic_segmentation(text: Seq<char>) -> Option<Seq<Seq<char>>>;

/// The tokenized form of `text`: `None` for a blank text, a failed
/// segmentation or an empty token list; else the tokens joined by spaces.
pub open spec fn tokenize_korean_spec(text: Seq<char>) -> Option<Seq<char>> {
    if all_ws(text) {
        None
    } else {
        match ko_dic_segmentation(text) {
            None => None,
            Some(ms) => {
                let joined = join_with(expand_morphemes(ms), seq![' ']);
                if joined.len() == 0 {
                    None
                } else {
                    Some(joined)
                }
            },
        }
    }
}

/// Segment `text` with lindera's embedded ko-dic dictionary
/// (`load_dictionary("embedded://ko-dic")`, `Segmenter::new(Mode::Normal, ..)`,
/// `Segmenter::segment`) and return the token surfaces. The result is a
/// function of the text alone: the dictionary is compiled into the binary
/// (or absent, in which case loading fails and the result is `None`).
#[verifier::external_body]
fn ko_dic_surfaces(text: &str) -> (res: Option<Vec<String>>)
    ensures
        match res {
            Some(v) => ko_dic_segmentation(text@) == Some(strings_view(v@)),
            None => ko_dic_segmentation(text@) is None,
        },
{
    let dict = lindera::dictionary::load_dictionary("embedded://ko-dic").ok()?;
    let segmenter = lindera::segmenter::Segmenter::new(lindera::mode::Mode::Normal, dict, None);
    let tokens = segmenter.segment(std::borrow::Cow::Borrowed(text)).ok()?;
    Some(tokens.iter().map(|t| t.surface.to_string()).collect())
}

pub fn is_ws_char(c: char) -> (b: bool)
    ensures
        b == is_ws(c),
{
    let u = c as u32;
    (0x09 <= u && u <= 0x0D) || u == 0x20 || u == 0x85 || u == 0xA0 || u == 0x1680 || (0x2000 <= u
        && u <= 0x200A) || u == 0x2028 || u == 0x2029 || u == 0x202F || u == 0x205F || u == 0x3000
}

/// Whether `s` is empty after trimming whitespace.
pub fn is_blank(s: &Vec<char>) -> (b: bool)
    ensures
        b == all_ws(s@),
{
    let mut i: usize = 0;
    while i < s.len()
        invariant
            i <= s.len(),
            forall|k: int| 0 <= k < i ==> is_ws(#[trigger] s@[k]),
        decreases s.len() - i,
    {
        if !is_ws_char(s[i]) {
            return false;
        }
        i = i + 1;
    }
    true
}

/// Whether `c` is a Hangul syllable or jamo.
pub fn is_hangul_char(c: char) -> (b: bool)
    ensures
        b == is_hangul(c),
{
    let u = c as u32;
    (0xAC00 <= u && u <= 0xD7A3) || (0x1100 <= u && u <= 0x11FF) || (0x3130 <= u && u <= 0x318F)
}

fn push_token(out: &mut Vec<char>, any: bool, tok: &Vec<char>)
    ensures
        final(out)@ == (if any {
            old(out)@ + seq![' '] + tok@
        } else {
            old(out)@ + tok@
        }),
{
    if any {
        out.push(' ');
    }
    let ghost mid = out@;
    let mut j: usize = 0;
    while j < tok.len()
        invariant
            j <= tok.len(),
            out@ == mid + tok@.take(j as int),
        decreases tok.len() - j,
    {
        out.push(tok[j]);
        proof {
            assert(tok@.take(j + 1) =~= tok@.take(j as int).push(tok@[j as int]));
        }
        j = j + 1;
    }
    proof {
        assert(tok@.take(tok.len() as int) =~= tok@);
        assert(final(out)@ =~= (if any {
            old(out)@ + seq![' '] + tok@
        } else {
            old(out)@ + tok@
        }));
    }
}

proof fn lemma_join_append(parts: Seq<Seq<char>>, more: Seq<Seq<char>>, sep: Seq<char>)
    requires
        parts.len() > 0,
    ensures
        more.len() > 0 ==> join_with(parts + more, sep) == join_with(parts, sep) + sep + join_with(
            more,
            sep,
        ),
    decreases more.len(),
{
    if more.len() > 1 {
        lemma_join_append(parts, more.drop_last(), sep);
        assert((parts + more).drop_last() =~= parts + more.drop_last());
        assert((parts + more).last() == more.last());
    } else if more.len() == 1 {
        assert((parts + more).drop_last() =~= parts);
        assert(join_with(more, sep) == more[0]);
    }
}

/// Join the ko-dic morphemes of `text` (with the Hangul bigram supplement)
/// by spaces; `None` for a blank text or when no tokens come out.
pub fn tokenize_korean_morphological(text: &str) -> (res: Option<String>)
    ensures
        match res {
            Some(s) => tokenize_korean_spec(text@) == Some(s@),
            None => tokenize_korean_spec(text@) is None,
        },
{
    let chars = chars_of(text);
    if is_blank(&chars) {
        return None;
    }
    let surfaces = match ko_dic_surfaces(text) {
        Some(v) => v,
        None => return None,
    };
    let ghost ms = strings_view(surfaces@);
    let mut out: Vec<char> = Vec::new();
    let mut any: bool = false;
    let mut i: usize = 0;
    while i < surfaces.len()
        invariant
            i <= surfaces.len(),
            ms == strings_view(surfaces@),
            !any <==> expand_morphemes(ms.take(i as int)).len() == 0,
            out@ == join_with(expand_morphemes(ms.take(i as int)), seq![' ']),
        decreases surfaces.len() - i,
    {
        let surface = chars_of(surfaces[i].as_str());
        let ghost before = expand_morphemes(ms.take(i as int));
        proof {
            assert(ms.take(i + 1).drop_last() =~= ms.take(i as int));
            assert(ms.take(i + 1).last() == surface@);
        }
        let mut toks: Vec<Vec<char>> = Vec::new();
        let cloned = surface.clone();
        proof {
            assert(cloned@ =~= surface@);
        }
        toks.push(cloned);
        let mut hangul = true;
        let mut k: usize = 0;
        while k < surface.len()
            invariant
                k <= surface.len(),
                hangul == (forall|q: int| 0 <= q < k ==> is_hangul(#[trigger] surface@[q])),
            decreases surface.len() - k,
        {
            hangul = hangul && is_hangul_char(surface[k]);
            k = k + 1;
        }
        if surface.len() >= 3 && hangul {
            let mut w: usize = 0;
            while w + 1 < surface.len()
                invariant
                    surface.len() >= 3,
                    w + 1 <= surface.len(),
                    crate::text::char_vecs_view(toks@) == seq![surface@] + windows2(surface@).take(
                        w as int,
                    ),
                decreases surface.len() - w,
            {
                let mut win: Vec<char> = Vec::new();
                win.push(surface[w]);
                win.push(surface[w + 1]);
                let ghost old_toks = toks@;
                toks.push(win);
                proof {
                    assert(win@ =~= surface@.subrange(w as int, w + 2));
                    assert(crate::text::char_vecs_view(toks@) =~= crate::text::char_vecs_view(
                        old_toks,
                    ).push(win@));
                    assert(windows2(surface@).take(w + 1) =~= windows2(surface@).take(w as int).push(
                        surface@.subrange(w as int, w + 2),
                    ));
                }
                w = w + 1;
            }
            proof {
                assert(windows2(surface@).take(w as int) =~= windows2(surface@));
            }
        } else {
            proof {
                assert(crate::text::char_vecs_view(toks@) =~= seq![surface@]);
            }
        }
        proof {
            assert(crate::text::char_vecs_view(toks@) == morpheme_tokens(surface@));
        }
        let ghost tv = crate::text::char_vecs_view(toks@);
        let mut t: usize = 0;
        while t < toks.len()
            invariant
                t <= toks.len(),
                tv == crate::text::char_vecs_view(toks@),
                tv.len() >= 1,
                !any <==> (before + tv.take(t as int)).len() == 0,
                out@ == join_with(before + tv.take(t as int), seq![' ']),
            decreases toks.len() - t,
        {
            push_token(&mut out, any, &toks[t]);
            proof {
                let prev = before + tv.take(t as int);
                let now = before + tv.take(t + 1);
                assert(now =~= prev.push(tv[t as int]));
                assert(now.drop_last() =~= prev);
                if prev.len() == 0 {
                    assert(now.len() == 1);
                    assert(out@ =~= tv[t as int]);
                } else {
                    assert(out@ =~= join_with(prev, seq![' ']) + seq![' '] + tv[t as int]);
                }
            }
            any = true;
            t = t + 1;
        }
        proof {
            assert(tv.take(tv.len() as int) =~= tv);
            assert(expand_morphemes(ms.take(i + 1)) == before + tv);
        }
        i = i + 1;
    }
    proof {
        assert(ms.take(surfaces.len() as int) =~= ms);
    }
    if out.len() == 0 {
        None
    } else {
        Some(string_from_chars(&out))
    }
}

} // verus!
