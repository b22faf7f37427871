//! Text rendering of document blocks and the per-block token estimate.

use vstd::prelude::*;
use crate::model::{Block, ImageRefBlock, ListItem, TableBlock};
use crate::oversize::est_tokens;
use crate::text::{
    chars_byte_len, chars_of, join_with, split_chars, split_on, string_from_chars, utf8_len,
};

verus! {

/// `parts` without its empty members.
pub open spec fn keep_nonempty(parts: Seq<Seq<char>>) -> Seq<Seq<char>>
    decreases parts.len(),
{
    if parts.len() == 0 {
        seq![]
    } else if parts.last().len() == 0 {
        keep_nonempty(parts.drop_last())
    } else {
        keep_nonempty(parts.drop_last()).push(parts.last())
    }
}

/// The label of an image: its alt text, else the last `/`-separated
/// segment of its source path, else `[image]`.
pub open spec fn image_label(alt: Seq<char>, src: Seq<char>) -> Seq<char> {
    if alt.len() > 0 {
        alt
    } else if split_on(src, '/').last().len() > 0 {
        split_on(src, '/').last()
    } else {
        "[image]"@
    }
}

pub open spec fn opt_text(o: Option<String>) -> Seq<char> {
    match o {
        Some(s) => s@,
        None => seq![],
    }
}

/// Image text: label, OCR text and caption, empty parts dropped, joined by
/// a blank line.
pub open spec fn image_text(i: ImageRefBlock) -> Seq<char> {
    join_with(
        keep_nonempty(seq![image_label(i.alt@, i.src@), opt_text(i.ocr), opt_text(i.caption)]),
        seq!['\n', '\n'],
    )
}

/// A table row: cells joined by ` | `.
pub open spec fn row_text(row: Seq<String>) -> Seq<char> {
    join_with(row.map_values(|c: String| c@), " | "@)
}

/// Each row preceded by a newline.
pub open spec fn rows_text(rows: Seq<Vec<String>>) -> Seq<char>
    decreases rows.len(),
{
    if rows.len() == 0 {
        seq![]
    } else {
        rows_text(rows.drop_last()) + seq!['\n'] + row_text(rows.last()@)
    }
}

/// Table text: the header row, then one line per row.
pub open spec fn table_text(t: TableBlock) -> Seq<char> {
    row_text(t.headers@) + rows_text(t.rows@)
}

/// List text: one item per line.
pub open spec fn list_text(items: Seq<ListItem>) -> Seq<char> {
    join_with(items.map_values(|it: ListItem| it.text@), seq!['\n'])
}

/// The text a block contributes to a chunk.
pub open spec fn render_spec(b: Block) -> Seq<char> {
    match b {
        Block::Heading(h) => h.text@,
        Block::Paragraph(t) => t.text@,
        Block::Quote(t) => t.text@,
        Block::List(l) => list_text(l.items@),
        Block::Code(c) => c.code@,
        Block::Table(t) => table_text(t),
        Block::ImageRef(i) => image_text(i),
        Block::AudioRef(_) => seq![],
    }
}

/// Image and audio blocks carry no text-size weight.
pub open spec fn is_media(b: Block) -> bool {
    b is ImageRef || b is AudioRef
}

/// The token estimate of a block: 0 for image/audio, else its rendered
/// UTF-8 length divided by 3, rounded up.
pub open spec fn block_tokens(b: Block) -> nat {
    if is_media(b) {
        0
    } else {
        est_tokens(utf8_len(render_spec(b)))
    }
}

fn append_chars(out: &mut Vec<char>, s: &str)
    ensures
        final(out)@ == old(out)@ + s@,
{
    let cs = chars_of(s);
    let mut i: usize = 0;
    let ghost start = out@;
    while i < cs.len()
        invariant
            i <= cs.len(),
            cs@ == s@,
            out@ == start + cs@.take(i as int),
        decreases cs.len() - i,
    {
        out.push(cs[i]);
        proof {
            assert(cs@.take(i + 1) =~= cs@.take(i as int).push(cs@[i as int]));
        }
        i = i + 1;
    }
    proof {
        assert(cs@.take(cs.len() as int) =~= cs@);
    }
}

fn append_row(out: &mut Vec<char>, row: &Vec<String>)
    ensures
        final(out)@ == old(out)@ + row_text(row@),
{
    let ghost start = out@;
    let ghost parts = row@.map_values(|c: String| c@);
    let mut i: usize = 0;
    while i < row.len()
        invariant
            i <= row.len(),
            parts == row@.map_values(|c: String| c@),
            out@ == start + join_with(parts.take(i as int), " | "@),
        decreases row.len() - i,
    {
        proof {
            assert(parts.take(i + 1).drop_last() =~= parts.take(i as int));
            assert(parts.take(i + 1).last() == row@[i as int]@);
        }
        if i > 0 {
            append_chars(out, " | ");
            proof {
                assert(join_with(parts.take(i + 1), " | "@) == join_with(parts.take(i as int), " | "@)
                    + " | "@ + row@[i as int]@);
            }
        } else {
            proof {
                assert(join_with(parts.take(1), " | "@) == parts.take(1)[0]);
                assert(join_with(parts.take(0), " | "@) =~= Seq::<char>::empty());
            }
        }
        append_chars(out, row[i].as_str());
        proof {
            assert(out@ =~= start + join_with(parts.take(i + 1), " | "@));
        }
        i = i + 1;
    }
    proof {
        assert(parts.take(row.len() as int) =~= parts);
    }
}

fn table_chars(t: &TableBlock) -> (res: Vec<char>)
    ensures
        res@ == table_text(*t),
{
    let mut out: Vec<char> = Vec::new();
    append_row(&mut out, &t.headers);
    let ghost head = out@;
    let mut i: usize = 0;
    while i < t.rows.len()
        invariant
            i <= t.rows.len(),
            head == row_text(t.headers@),
            out@ == head + rows_text(t.rows@.take(i as int)),
        decreases t.rows.len() - i,
    {
        proof {
            assert(t.rows@.take(i + 1).drop_last() =~= t.rows@.take(i as int));
            assert(t.rows@.take(i + 1).last() == t.rows@[i as int]);
        }
        out.push('\n');
        append_row(&mut out, &t.rows[i]);
        proof {
            assert(out@ =~= head + rows_text(t.rows@.take(i + 1)));
        }
        i = i + 1;
    }
    proof {
        assert(t.rows@.take(t.rows.len() as int) =~= t.rows@);
        assert(head + rows_text(Seq::<Vec<String>>::empty()) =~= head);
    }
    out
}

fn list_chars(items: &Vec<ListItem>) -> (res: Vec<char>)
    ensures
        res@ == list_text(items@),
{
    let mut out: Vec<char> = Vec::new();
    let ghost parts = items@.map_values(|it: ListItem| it.text@);
    let mut i: usize = 0;
    while i < items.len()
        invariant
            i <= items.len(),
            parts == items@.map_values(|it: ListItem| it.text@),
            out@ == join_with(parts.take(i as int), seq!['\n']),
        decreases items.len() - i,
    {
        proof {
            assert(parts.take(i + 1).drop_last() =~= parts.take(i as int));
            assert(parts.take(i + 1).last() == items@[i as int].text@);
        }
        if i > 0 {
            out.push('\n');
        } else {
            proof {
                assert(join_with(parts.take(1), seq!['\n']) == parts.take(1)[0]);
            }
        }
        append_chars(&mut out, items[i].text.as_str());
        proof {
            assert(out@ =~= join_with(parts.take(i + 1), seq!['\n']));
        }
        i = i + 1;
    }
    proof {
        assert(parts.take(items.len() as int) =~= parts);
    }
    out
}

fn image_label_chars(alt: &String, src: &String) -> (res: Vec<char>)
    ensures
        res@ == image_label(alt@, src@),
{
    let alt_chars = chars_of(alt.as_str());
    if alt_chars.len() > 0 {
        return alt_chars;
    }
    let src_chars = chars_of(src.as_str());
    let mut segs = split_chars(&src_chars, '/');
    let ghost segs0 = segs@;
    proof {
        assert(segs@.len() == split_on(src@, '/').len());
        assert(segs@.len() > 0);
    }
    let last = segs.pop().unwrap();
    proof {
        let v = crate::text::char_vecs_view(segs0);
        assert(v.last() == last@) by {
            assert(v[v.len() - 1] == segs0[v.len() - 1]@);
        }
    }
    if last.len() > 0 {
        last
    } else {
        let mut out: Vec<char> = Vec::new();
        append_chars(&mut out, "[image]");
        out
    }
}

fn push_part(parts: &mut Vec<Vec<char>>, p: Vec<char>)
    ensures
        crate::text::char_vecs_view(final(parts)@) == keep_nonempty_step(
            crate::text::char_vecs_view(old(parts)@),
            p@,
        ),
{
    if p.len() > 0 {
        let ghost before = parts@;
        parts.push(p);
        proof {
            assert(crate::text::char_vecs_view(parts@) =~= crate::text::char_vecs_view(before).push(
                p@,
            ));
        }
    }
}

/// Appending `p` to an already-filtered sequence.
pub open spec fn keep_nonempty_step(kept: Seq<Seq<char>>, p: Seq<char>) -> Seq<Seq<char>> {
    if p.len() == 0 {
        kept
    } else {
        kept.push(p)
    }
}

fn opt_chars(o: &Option<String>) -> (res: Vec<char>)
    ensures
        res@ == opt_text(*o),
{
    match o {
        Some(s) => chars_of(s.as_str()),
        None => Vec::new(),
    }
}

fn image_chars(i: &ImageRefBlock) -> (res: Vec<char>)
    ensures
        res@ == image_text(*i),
{
    let a = image_label_chars(&i.alt, &i.src);
    let o = opt_chars(&i.ocr);
    let c = opt_chars(&i.caption);
    let ghost three = seq![a@, o@, c@];
    let mut parts: Vec<Vec<char>> = Vec::new();
    proof {
        assert(crate::text::char_vecs_view(parts@) =~= keep_nonempty(Seq::<Seq<char>>::empty()));
    }
    push_part(&mut parts, a);
    proof {
        assert(seq![three[0]].drop_last() =~= Seq::<Seq<char>>::empty());
        assert(crate::text::char_vecs_view(parts@) == keep_nonempty(seq![three[0]]));
    }
    push_part(&mut parts, o);
    proof {
        assert(seq![three[0], three[1]].drop_last() =~= seq![three[0]]);
        assert(crate::text::char_vecs_view(parts@) == keep_nonempty(seq![three[0], three[1]]));
    }
    push_part(&mut parts, c);
    proof {
        assert(three.drop_last() =~= seq![three[0], three[1]]);
        assert(crate::text::char_vecs_view(parts@) == keep_nonempty(three));
    }
    let mut out: Vec<char> = Vec::new();
    let ghost pv = crate::text::char_vecs_view(parts@);
    let mut k: usize = 0;
    while k < parts.len()
        invariant
            k <= parts.len(),
            pv == crate::text::char_vecs_view(parts@),
            out@ == join_with(pv.take(k as int), seq!['\n', '\n']),
        decreases parts.len() - k,
    {
        proof {
            assert(pv.take(k + 1).drop_last() =~= pv.take(k as int));
            assert(pv.take(k + 1).last() == parts@[k as int]@);
        }
        if k > 0 {
            out.push('\n');
            out.push('\n');
        } else {
            proof {
                assert(join_with(pv.take(1), seq!['\n', '\n']) == pv.take(1)[0]);
            }
        }
        let mut j: usize = 0;
        let ghost mid = out@;
        while j < parts[k].len()
            invariant
                k < parts.len(),
                j <= parts@[k as int].len(),
                out@ == mid + parts@[k as int]@.take(j as int),
            decreases parts@[k as int].len() - j,
        {
            out.push(parts[k][j]);
            proof {
                assert(parts@[k as int]@.take(j + 1) =~= parts@[k as int]@.take(j as int).push(
                    parts@[k as int]@[j as int],
                ));
            }
            j = j + 1;
        }
        proof {
            assert(parts@[k as int]@.take(parts@[k as int]@.len() as int) =~= parts@[k as int]@);
            if k > 0 {
                assert(mid =~= join_with(pv.take(k as int), seq!['\n', '\n']) + seq!['\n', '\n']);
            } else {
                assert(mid =~= Seq::<char>::empty());
            }
            assert(out@ =~= join_with(pv.take(k + 1), seq!['\n', '\n']));
        }
        k = k + 1;
    }
    proof {
        assert(pv.take(parts.len() as int) =~= pv);
    }
    out
}

/// The text a block contributes to a chunk, as characters.
pub fn render_chars(b: &Block) -> (res: Vec<char>)
    ensures
        res@ == render_spec(*b),
{
    match b {
        Block::Heading(h) => chars_of(h.text.as_str()),
        Block::Paragraph(t) => chars_of(t.text.as_str()),
        Block::Quote(t) => chars_of(t.text.as_str()),
        Block::List(l) => list_chars(&l.items),
        Block::Code(c) => chars_of(c.code.as_str()),
        Block::Table(t) => table_chars(t),
        Block::ImageRef(i) => image_chars(i),
        Block::AudioRef(_) => Vec::new(),
    }
}

/// The text a block contributes to a chunk.
pub fn render_block_text(b: &Block) -> (res: String)
    ensures
        res@ == render_spec(*b),
{
    let cs = render_chars(b);
    string_from_chars(&cs)
}

/// Token estimate of a block (0 for image/audio), without overflow.
pub fn block_tokens_of(b: &Block) -> (res: u128)
    ensures
        res as nat == block_tokens(*b),
{
    match b {
        Block::ImageRef(_) | Block::AudioRef(_) => 0,
        _ => {
            let cs = render_chars(b);
            let n = chars_byte_len(&cs);
            if n % 3 == 0 {
                n / 3
            } else {
                n / 3 + 1
            }
        },
    }
}

} // verus!
