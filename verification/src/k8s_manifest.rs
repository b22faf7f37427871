//! `k8s-manifest-resource-v1`: a multi-document YAML file is cut at `---`
//! separator lines; each document whose YAML mapping has non-empty string
//! `apiVersion` and `kind` fields is a Kubernetes resource and becomes one
//! chunk (or 200-line windows) with the symbol `Kind/namespace/name`
//! (`Kind/name` without a namespace). Other documents are skipped, and an
//! invalid YAML document makes the whole file yield no chunks.

use vstd::prelude::*;
use crate::korean::{all_ws, is_blank, is_ws, is_ws_char};
use crate::text::{chars_of, lemma_split_fold_join, split_fold, split_on, string_from_chars, utf8_len};
use crate::flatten::{grouped, lemma_grouped_append};
use crate::hashing::{is_lower_hex, policy_hash_of, policy_hash_spec};
use crate::manifest_file::first_code_block;
use crate::model::{Block, CanonicalDocument, Chunk, ChunkError, ChunkPolicy};
use crate::pdf_page::slice_string;
use crate::tier2::{lines_spec, oversize_chunk_ok, oversize_count, push_chunks_with_oversize, text_lines};
use serde_yaml::Value as Yaml;

verus! {

/// Number of `\n` characters in `s`.
pub open spec fn nl_count(s: Seq<char>) -> nat
    decreases s.len(),
{
    if s.len() == 0 {
        0
    } else {
        nl_count(s.drop_last()) + (if s.last() == '\n' { 1nat } else { 0nat })
    }
}

/// Scan from `pos`, having seen `count` newlines, for the position right
/// after newline number `i`; the text length when there is none.
pub open spec fn line_offset_from(t: Seq<char>, i: int, pos: int, count: int) -> int
    decreases t.len() - pos,
{
    if pos < 0 || pos >= t.len() {
        t.len() as int
    } else if t[pos] == '\n' && count + 1 == i {
        pos + 1
    } else {
        line_offset_from(t, i, pos + 1, count + (if t[pos] == '\n' { 1int } else { 0int }))
    }
}

/// The character offset where line `i` (0-based) of `t` starts: 0 for the
/// first line, right after the `i`-th `\n`, or the text length when `t`
/// has fewer lines.
pub open spec fn line_offset(t: Seq<char>, i: int) -> int {
    if i == 0 {
        0
    } else {
        line_offset_from(t, i, 0, 0)
    }
}

proof fn lemma_nl_count_take_step(t: Seq<char>, pos: int)
    requires
        0 <= pos < t.len(),
    ensures
        nl_count(t.take(pos + 1)) == nl_count(t.take(pos)) + (if t[pos] == '\n' { 1nat } else { 0nat }),
{
    assert(t.take(pos + 1).drop_last() =~= t.take(pos));
}

proof fn lemma_line_offset_from(t: Seq<char>, i: int, pos: int, count: int)
    requires
        0 <= pos <= t.len(),
        count == nl_count(t.take(pos)),
        count < i,
    ensures
        pos <= line_offset_from(t, i, pos, count) <= t.len(),
        nl_count(t.take(line_offset_from(t, i, pos, count))) == (if i <= nl_count(t) {
            i
        } else {
            nl_count(t) as int
        }),
    decreases t.len() - pos,
{
    if pos >= t.len() {
        assert(t.take(pos) =~= t);
    } else {
        lemma_nl_count_take_step(t, pos);
        let c2 = count + (if t[pos] == '\n' { 1int } else { 0int });
        if t[pos] == '\n' && count + 1 == i {
            lemma_nl_count_mono(t, pos + 1, t.len() as int);
            assert(t.take(t.len() as int) =~= t);
        } else {
            lemma_line_offset_from(t, i, pos + 1, c2);
        }
    }
}

proof fn lemma_nl_count_mono(t: Seq<char>, a: int, b: int)
    requires
        0 <= a <= b <= t.len(),
    ensures
        nl_count(t.take(a)) <= nl_count(t.take(b)),
    decreases b - a,
{
    if a < b {
        lemma_nl_count_mono(t, a, b - 1);
        lemma_nl_count_take_step(t, b - 1);
    }
}

proof fn lemma_line_offset_from_mono(t: Seq<char>, i: int, j: int, pos: int, count: int)
    requires
        0 <= pos <= t.len(),
        count < i <= j,
    ensures
        line_offset_from(t, i, pos, count) <= line_offset_from(t, j, pos, count),
    decreases t.len() - pos,
{
    if pos < t.len() {
        let c2 = count + (if t[pos] == '\n' { 1int } else { 0int });
        if t[pos] == '\n' && count + 1 == i {
            if count + 1 != j {
                lemma_line_offset_from_ge(t, j, pos + 1, c2);
            }
        } else {
            lemma_line_offset_from_mono(t, i, j, pos + 1, c2);
        }
    }
}

proof fn lemma_line_offset_from_ge(t: Seq<char>, i: int, pos: int, count: int)
    requires
        0 <= pos <= t.len(),
    ensures
        pos <= line_offset_from(t, i, pos, count) <= t.len(),
    decreases t.len() - pos,
{
    if pos < t.len() {
        let c2 = count + (if t[pos] == '\n' { 1int } else { 0int });
        if !(t[pos] == '\n' && count + 1 == i) {
            lemma_line_offset_from_ge(t, i, pos + 1, c2);
        }
    }
}

/// Line offsets lie within the text, grow with the line index, and the
/// text before line `i` holds `min(i, nl_count(t))` newlines.
pub proof fn lemma_line_offset(t: Seq<char>, i: int, j: int)
    requires
        0 <= i <= j,
    ensures
        0 <= line_offset(t, i) <= line_offset(t, j) <= t.len(),
        nl_count(t.take(line_offset(t, i))) == (if i <= nl_count(t) { i } else { nl_count(t) as int }),
{
    assert(t.take(0) =~= Seq::<char>::empty());
    if i > 0 {
        lemma_line_offset_from(t, i, 0, 0);
        lemma_line_offset_from_mono(t, i, j, 0, 0);
        lemma_line_offset_from_ge(t, j, 0, 0);
    } else if j > 0 {
        lemma_line_offset_from_ge(t, j, 0, 0);
    }
}

/// The character offset where line `idx` of `chars` starts.
fn line_char_offset(chars: &Vec<char>, idx: usize) -> (res: usize)
    ensures
        res as int == line_offset(chars@, idx as int),
{
    if idx == 0 {
        return 0;
    }
    let n = chars.len();
    let mut count: usize = 0;
    let mut pos: usize = 0;
    while pos < n
        invariant
            n == chars@.len(),
            pos <= n,
            count < idx,
            count <= pos,
            line_offset_from(chars@, idx as int, pos as int, count as int) == line_offset(chars@, idx as int),
        decreases n - pos,
    {
        if chars[pos] == '\n' {
            count = count + 1;
            if count == idx {
                return pos + 1;
            }
        }
        pos = pos + 1;
    }
    n
}

/// The UTF-8 byte offset where line `line_idx` (0-based) of `text` starts:
/// 0 for the first line, right after the `line_idx`-th `\n`, or the text's
/// size when it has fewer lines.
pub fn byte_offset_of_line(text: &str, line_idx: usize) -> (res: usize)
    ensures
        res as nat == utf8_len(text@.take(line_offset(text@, line_idx as int))),
{
    let chars = chars_of(text);
    let off = line_char_offset(&chars, line_idx);
    proof {
        lemma_line_offset(text@, line_idx as int, line_idx as int);
        crate::text::lemma_utf8_len_concat(text@.take(off as int), text@.subrange(off as int, text@.len() as int));
        assert(text@.take(off as int) + text@.subrange(off as int, text@.len() as int) =~= text@);
    }
    let total = crate::text::utf8_byte_len(text);
    let mut bytes: usize = 0;
    let mut k: usize = 0;
    while k < off
        invariant
            off <= chars@.len(),
            chars@ == text@,
            k <= off,
            bytes as nat == utf8_len(text@.take(k as int)),
            utf8_len(text@.take(off as int)) <= total,
            bytes <= utf8_len(text@.take(off as int)),
        decreases off - k,
    {
        proof {
            assert(text@.take(k + 1).drop_last() =~= text@.take(k as int));
            assert(text@.take(off as int) =~= text@.take(k + 1) + text@.subrange(k + 1, off as int));
            crate::text::lemma_utf8_len_concat(text@.take(k + 1), text@.subrange(k + 1, off as int));
        }
        bytes = bytes + crate::text::char_len(chars[k]) as usize;
        k = k + 1;
    }
    bytes
}

/// `s` without trailing whitespace.
pub open spec fn trim_end(s: Seq<char>) -> Seq<char>
    decreases s.len(),
{
    if s.len() > 0 && is_ws(s.last()) {
        trim_end(s.drop_last())
    } else {
        s
    }
}

/// A YAML document separator line: `---`, or `--- ` / `---\t` followed by
/// anything, after trimming trailing whitespace.
pub open spec fn is_sep_line(line: Seq<char>) -> bool {
    let t = trim_end(line);
    t == seq!['-', '-', '-'] || (t.len() >= 4 && t.take(3) == seq!['-', '-', '-'] && (t[3] == ' '
        || t[3] == '\t'))
}

/// The indices `< m` of separator lines, in order.
pub open spec fn sep_indices(lines: Seq<Seq<char>>, m: int) -> Seq<int>
    decreases m,
{
    if m <= 0 {
        seq![]
    } else if is_sep_line(lines[m - 1]) {
        sep_indices(lines, m - 1).push(m - 1)
    } else {
        sep_indices(lines, m - 1)
    }
}

/// The separator indices followed by the line count.
pub open spec fn yaml_seps(lines: Seq<Seq<char>>) -> Seq<int> {
    sep_indices(lines, lines.len() as int).push(lines.len() as int)
}

/// One YAML document of a file: its raw text and 1-indexed line range.
pub struct YamlSlice {
    pub text: String,
    pub line_start: u32,
    pub line_end: u32,
}

/// Split state after the first `k` separators: the documents found and the
/// line where the next one starts.
pub open spec fn yaml_fold(t: Seq<char>, seps: Seq<int>, k: int) -> (Seq<(Seq<char>, int, int)>, int)
    decreases k,
{
    if k <= 0 {
        (seq![], 0)
    } else {
        let (out, ds) = yaml_fold(t, seps, k - 1);
        let sep = seps[k - 1];
        let sl = t.subrange(line_offset(t, ds), line_offset(t, sep));
        let out2 = if sep > ds && !all_ws(sl) {
            out.push((sl, ds + 1, sep))
        } else {
            out
        };
        (out2, sep + 1)
    }
}

/// The documents of a YAML file: `(text, first line, last line)`, the
/// text being the raw characters from the start of the first line to the
/// start of the separator line (or the end of the file); blank documents
/// are dropped.
pub open spec fn yaml_documents(t: Seq<char>) -> Seq<(Seq<char>, int, int)> {
    let seps = yaml_seps(lines_spec(t));
    yaml_fold(t, seps, seps.len() as int).0
}


/// The length of `line` without trailing whitespace.
fn trim_end_len(line: &Vec<char>) -> (n: usize)
    ensures
        n <= line@.len(),
        trim_end(line@) == line@.take(n as int),
{
    let mut n = line.len();
    proof {
        assert(line@.take(n as int) =~= line@);
    }
    while n > 0 && is_ws_char(line[n - 1])
        invariant
            n <= line@.len(),
            trim_end(line@) == trim_end(line@.take(n as int)),
        decreases n,
    {
        proof {
            let t = line@.take(n as int);
            assert(t.last() == line@[n - 1]);
            assert(t.drop_last() =~= line@.take(n - 1));
        }
        n = n - 1;
    }
    proof {
        let t = line@.take(n as int);
        if n > 0 {
            assert(t.last() == line@[n - 1]);
        }
    }
    n
}

/// Whether `line` is a YAML document separator.
fn is_sep_exec(line: &Vec<char>) -> (b: bool)
    ensures
        b == is_sep_line(line@),
{
    let n = trim_end_len(line);
    let ghost t = line@.take(n as int);
    if n < 3 {
        proof {
            assert(t.len() < 3);
            assert(t != seq!['-', '-', '-']);
        }
        return false;
    }
    let dashes = line[0] == '-' && line[1] == '-' && line[2] == '-';
    proof {
        assert(t[0] == line@[0] && t[1] == line@[1] && t[2] == line@[2]);
        if dashes {
            assert(t.take(3) =~= seq!['-', '-', '-']);
        } else {
            assert(t.take(3) != seq!['-', '-', '-']) by {
                if t.take(3) == seq!['-', '-', '-'] {
                    assert(t.take(3)[0] == '-' && t.take(3)[1] == '-' && t.take(3)[2] == '-');
                }
            }
            assert(t != seq!['-', '-', '-']) by {
                if t == seq!['-', '-', '-'] {
                    assert(t[0] == '-' && t[1] == '-' && t[2] == '-');
                }
            }
        }
    }
    if !dashes {
        return false;
    }
    if n == 3 {
        proof {
            assert(t =~= seq!['-', '-', '-']);
        }
        return true;
    }
    let c = line[3];
    proof {
        assert(t[3] == c);
        assert(t.len() >= 4);
        assert(t != seq!['-', '-', '-']);
    }
    c == ' ' || c == '\t'
}

/// Ordering and bounds of separator indices.
proof fn lemma_sep_indices(lines: Seq<Seq<char>>, m: int)
    requires
        m >= 0,
    ensures
        forall|i: int| 0 <= i < sep_indices(lines, m).len() ==> 0 <= #[trigger] sep_indices(lines, m)[i] < m,
    decreases m,
{
    if m > 0 {
        lemma_sep_indices(lines, m - 1);
        let prev = sep_indices(lines, m - 1);
        let cur = sep_indices(lines, m);
        assert forall|i: int| 0 <= i < cur.len() implies 0 <= #[trigger] cur[i] < m by {
            if i < prev.len() {
                assert(cur[i] == prev[i]);
            }
        }
    }
}

/// Cut a YAML file into its documents at separator lines (see
/// `yaml_documents`); line numbers are 1-indexed.
pub fn split_yaml_documents(text: &str) -> (res: Vec<YamlSlice>)
    requires
        lines_spec(text@).len() < u32::MAX,
    ensures
        res@.len() == yaml_documents(text@).len(),
        forall|j: int|
            0 <= j < res@.len() ==> {
                &&& (#[trigger] res@[j]).text@ == yaml_documents(text@)[j].0
                &&& res@[j].line_start as int == yaml_documents(text@)[j].1
                &&& res@[j].line_end as int == yaml_documents(text@)[j].2
            },
{
    let lines = text_lines(text);
    let chars = chars_of(text);
    let ghost lv = lines_spec(text@);
    let n = lines.len();
    let mut seps: Vec<usize> = Vec::new();
    let mut i: usize = 0;
    while i < n
        invariant
            n == lines@.len(),
            crate::text::char_vecs_view(lines@) == lv,
            i <= n,
            seps@.map_values(|x: usize| x as int) == sep_indices(lv, i as int),
        decreases n - i,
    {
        let ghost old_seps = seps@;
        proof {
            assert(lv[i as int] == lines@[i as int]@);
        }
        if is_sep_exec(&lines[i]) {
            seps.push(i);
            proof {
                assert(seps@.map_values(|x: usize| x as int) =~= old_seps.map_values(|x: usize| x as int).push(
                    i as int,
                ));
            }
        }
        i = i + 1;
    }
    let ghost old_seps = seps@;
    seps.push(n);
    let ghost sv = yaml_seps(lv);
    proof {
        assert(seps@.map_values(|x: usize| x as int) =~= old_seps.map_values(|x: usize| x as int).push(
            n as int,
        ));
        lemma_sep_indices(lv, n as int);
        assert forall|q: int| 0 <= q < sv.len() implies 0 <= #[trigger] sv[q] <= n by {
            if q < sv.len() - 1 {
                assert(sv[q] == sep_indices(lv, n as int)[q]);
            }
        }
    }
    let mut out: Vec<YamlSlice> = Vec::new();
    let mut ds: usize = 0;
    let mut k: usize = 0;
    while k < seps.len()
        invariant
            n == lv.len(),
            n < u32::MAX,
            chars@ == text@,
            sv == yaml_seps(lv),
            lv == lines_spec(text@),
            seps@.map_values(|x: usize| x as int) == sv,
            forall|q: int| 0 <= q < sv.len() ==> 0 <= #[trigger] sv[q] <= n,
            k <= seps@.len(),
            ds as int == yaml_fold(text@, sv, k as int).1,
            ds <= n + 1,
            out@.len() == yaml_fold(text@, sv, k as int).0.len(),
            forall|j: int|
                0 <= j < out@.len() ==> {
                    &&& (#[trigger] out@[j]).text@ == yaml_fold(text@, sv, k as int).0[j].0
                    &&& out@[j].line_start as int == yaml_fold(text@, sv, k as int).0[j].1
                    &&& out@[j].line_end as int == yaml_fold(text@, sv, k as int).0[j].2
                },
        decreases seps@.len() - k,
    {
        let sep = seps[k];
        proof {
            assert(sv[k as int] == sep as int);
        }
        let ghost old_out = out@;
        if sep > ds {
            let a = line_char_offset(&chars, ds);
            let b = line_char_offset(&chars, sep);
            proof {
                lemma_line_offset(text@, ds as int, sep as int);
            }
            let sl = slice_string(&chars, a, b);
            let sl_chars = chars_of(sl.as_str());
            if !is_blank(&sl_chars) {
                out.push(YamlSlice { text: sl, line_start: (ds + 1) as u32, line_end: sep as u32 });
                proof {
                    assert forall|j: int| 0 <= j < out@.len() implies {
                        &&& (#[trigger] out@[j]).text@ == yaml_fold(text@, sv, k + 1).0[j].0
                        &&& out@[j].line_start as int == yaml_fold(text@, sv, k + 1).0[j].1
                        &&& out@[j].line_end as int == yaml_fold(text@, sv, k + 1).0[j].2
                    } by {
                        if j < old_out.len() {
                            assert(out@[j] == old_out[j]);
                        }
                    }
                }
            }
        }
        ds = sep + 1;
        k = k + 1;
    }
    out
}


proof fn lemma_nl_count_concat(a: Seq<char>, b: Seq<char>)
    ensures
        nl_count(a + b) == nl_count(a) + nl_count(b),
    decreases b.len(),
{
    if b.len() == 0 {
        assert(a + b =~= a);
    } else {
        lemma_nl_count_concat(a, b.drop_last());
        assert((a + b).drop_last() =~= a + b.drop_last());
    }
}

proof fn lemma_split_count(s: Seq<char>)
    ensures
        split_fold(s, '\n').0.len() == nl_count(s),
    decreases s.len(),
{
    if s.len() > 0 {
        lemma_split_count(s.drop_last());
    }
}

/// A text has at most one more line than it has newlines.
pub proof fn lemma_lines_le_newlines(s: Seq<char>)
    ensures
        lines_spec(s).len() <= nl_count(s) + 1,
{
    lemma_split_count(s);
}

/// Shape of the documents found after `k` separators.
proof fn lemma_yaml_fold_shape(t: Seq<char>, seps: Seq<int>, k: int, bound: int)
    requires
        0 <= k <= seps.len(),
        forall|q: int| 0 <= q < seps.len() ==> 0 <= #[trigger] seps[q] <= bound,
    ensures
        0 <= yaml_fold(t, seps, k).1,
        forall|j: int|
            0 <= j < yaml_fold(t, seps, k).0.len() ==> {
                let d = #[trigger] yaml_fold(t, seps, k).0[j];
                &&& 1 <= d.1 <= d.2 <= bound
                &&& d.0 == t.subrange(line_offset(t, d.1 - 1), line_offset(t, d.2))
            },
    decreases k,
{
    if k > 0 {
        lemma_yaml_fold_shape(t, seps, k - 1, bound);
        let (out, ds) = yaml_fold(t, seps, k - 1);
        let (out2, _) = yaml_fold(t, seps, k);
        assert forall|j: int| 0 <= j < out2.len() implies {
            let d = #[trigger] out2[j];
            &&& 1 <= d.1 <= d.2 <= bound
            &&& d.0 == t.subrange(line_offset(t, d.1 - 1), line_offset(t, d.2))
        } by {
            if j < out.len() {
                assert(out2[j] == out[j]);
            }
        }
    }
}

/// A document of a file with fewer than `u32::MAX - 1` lines has at most
/// `line_end - line_start + 1` lines, so its windows' line numbers fit.
pub proof fn lemma_yaml_document_lines(t: Seq<char>, j: int)
    requires
        0 <= j < yaml_documents(t).len(),
    ensures
        1 <= yaml_documents(t)[j].1 <= yaml_documents(t)[j].2 <= lines_spec(t).len(),
        yaml_documents(t)[j].1 + lines_spec(yaml_documents(t)[j].0).len() <= yaml_documents(t)[j].2 + 2,
{
    let lv = lines_spec(t);
    let seps = yaml_seps(lv);
    let n = lv.len() as int;
    lemma_sep_indices(lv, n);
    assert forall|q: int| 0 <= q < seps.len() implies 0 <= #[trigger] seps[q] <= n by {
        if q < seps.len() - 1 {
            assert(seps[q] == sep_indices(lv, n)[q]);
        }
    }
    lemma_yaml_fold_shape(t, seps, seps.len() as int, n);
    let d = yaml_documents(t)[j];
    let a = line_offset(t, d.1 - 1);
    let b = line_offset(t, d.2);
    lemma_line_offset(t, d.1 - 1, d.2);
    lemma_line_offset(t, d.2, d.2);
    assert(t.take(b) =~= t.take(a) + t.subrange(a, b));
    lemma_nl_count_concat(t.take(a), t.subrange(a, b));
    lemma_lines_le_newlines(d.0);
}

// ---------------------------------------------------------------------------
// The chunker

/// The fields of a YAML document that the k8s chunker reads
/// (`serde_yaml::from_str::<Value>`, then `as_mapping`, `get`, `as_str`):
/// `None` when the text is not valid YAML, `Some(None)` when its root is not
/// a mapping, else the string values of `apiVersion`, `kind`,
/// `metadata.name` and `metadata.namespace` (each `None` when absent or not
/// a string; the last two also when `metadata` is not a mapping).
pub uninterp spec fn yaml_resource_fields(text: Seq<char>) -> Option<
    Option<(Option<Seq<char>>, Option<Seq<char>>, Option<Seq<char>>, Option<Seq<char>>)>,
>;

pub open spec fn opt_str_view(o: Option<String>) -> Option<Seq<char>> {
    match o {
        Some(s) => Some(s@),
        None => None,
    }
}

/// The view of a fields tuple.
pub open spec fn fields_view(
    f: Option<Option<(Option<String>, Option<String>, Option<String>, Option<String>)>>,
) -> Option<Option<(Option<Seq<char>>, Option<Seq<char>>, Option<Seq<char>>, Option<Seq<char>>)>> {
    match f {
        None => None,
        Some(None) => Some(None),
        Some(Some((a, k, n, s))) => Some(
            Some((opt_str_view(a), opt_str_view(k), opt_str_view(n), opt_str_view(s))),
        ),
    }
}

/// Parse `text` as YAML with `serde_yaml::from_str::<serde_yaml::Value>`
/// and read the fields the k8s chunker needs. The contract names the
/// result `yaml_resource_fields(text)`: a function of the text alone, as
/// YAML parsing is.
#[verifier::external_body]
fn yaml_fields(text: &str) -> (res: Option<Option<(Option<String>, Option<String>, Option<String>, Option<String>)>>)
    ensures
        fields_view(res) == yaml_resource_fields(text@),
{
    let value: Yaml = serde_yaml::from_str(text).ok()?;
    let Some(map) = value.as_mapping() else { return Some(None) };
    let md = map.get("metadata").and_then(Yaml::as_mapping);
    let (name, ns) = match md {
        Some(m) => (m.get("name"), m.get("namespace")),
        None => (None, None),
    };
    let api = map.get("apiVersion").and_then(Yaml::as_str).map(String::from);
    let kind = map.get("kind").and_then(Yaml::as_str).map(String::from);
    let name = name.and_then(Yaml::as_str).map(String::from);
    let ns = ns.and_then(Yaml::as_str).map(String::from);
    Some(Some((api, kind, name, ns)))
}

pub open spec fn unwrap_or(o: Option<Seq<char>>, d: Seq<char>) -> Seq<char> {
    match o {
        Some(s) => s,
        None => d,
    }
}

/// The resource symbol of a document's fields: `Kind/namespace/name`, or
/// `Kind/name` without a (non-empty) namespace, the name defaulting to
/// `<unnamed>`; `None` unless the document is a mapping with non-empty
/// `apiVersion` and `kind`.
pub open spec fn k8s_symbol(
    f: Option<Option<(Option<Seq<char>>, Option<Seq<char>>, Option<Seq<char>>, Option<Seq<char>>)>>,
) -> Option<Seq<char>> {
    match f {
        Some(Some((api, kind, name, ns))) => {
            let a = unwrap_or(api, seq![]);
            let k = unwrap_or(kind, seq![]);
            if a.len() == 0 || k.len() == 0 {
                None
            } else {
                let nm = unwrap_or(name, "<unnamed>"@);
                match ns {
                    Some(s) => if s.len() > 0 {
                        Some(k + seq!['/'] + s + seq!['/'] + nm)
                    } else {
                        Some(k + seq!['/'] + nm)
                    },
                    None => Some(k + seq!['/'] + nm),
                }
            }
        },
        _ => None,
    }
}

/// Version label of [`K8sManifestResourceV1Chunker`].
pub open spec fn k8s_label() -> Seq<char> {
    "k8s-manifest-resource-v1"@
}


/// The symbol text `kind/ns/name` or `kind/name`.
fn symbol_of(kind: &String, ns: &Option<String>, name: &String) -> (res: String)
    ensures
        res@ == (match ns {
            Some(s) => if s@.len() > 0 {
                kind@ + seq!['/'] + s@ + seq!['/'] + name@
            } else {
                kind@ + seq!['/'] + name@
            },
            None => kind@ + seq!['/'] + name@,
        }),
{
    let mut out = chars_of(kind.as_str());
    out.push('/');
    match ns {
        Some(s) => {
            if !s.as_str().is_empty() {
                let sc = chars_of(s.as_str());
                let mut k: usize = 0;
                let ghost before = out@;
                while k < sc.len()
                    invariant
                        k <= sc@.len(),
                        out@ == before + sc@.take(k as int),
                    decreases sc@.len() - k,
                {
                    out.push(sc[k]);
                    proof {
                        assert(sc@.take(k + 1) =~= sc@.take(k as int).push(sc@[k as int]));
                    }
                    k = k + 1;
                }
                proof {
                    assert(sc@.take(sc@.len() as int) =~= sc@);
                }
                out.push('/');
            }
        },
        None => {},
    }
    let nc = chars_of(name.as_str());
    let mut k: usize = 0;
    let ghost before = out@;
    while k < nc.len()
        invariant
            k <= nc@.len(),
            out@ == before + nc@.take(k as int),
        decreases nc@.len() - k,
    {
        out.push(nc[k]);
        proof {
            assert(nc@.take(k + 1) =~= nc@.take(k as int).push(nc@[k as int]));
        }
        k = k + 1;
    }
    proof {
        assert(nc@.take(nc@.len() as int) =~= nc@);
    }
    let res = string_from_chars(&out);
    proof {
        match ns {
            Some(s) => {
                if s@.len() > 0 {
                    assert(res@ =~= kind@ + seq!['/'] + s@ + seq!['/'] + name@);
                } else {
                    assert(res@ =~= kind@ + seq!['/'] + name@);
                }
            },
            None => {
                assert(res@ =~= kind@ + seq!['/'] + name@);
            },
        }
    }
    res
}

/// A document yields chunks only when it is a Kubernetes resource.
pub open spec fn k8s_count(d: (Seq<char>, int, int)) -> nat {
    match k8s_symbol(yaml_resource_fields(d.0)) {
        Some(_) => oversize_count(d.0, d.1 as u32, d.2 as u32),
        None => 0,
    }
}

/// Chunk `i` of document `j` of the file text `t`.
pub open spec fn k8s_chunk_ok(t: Seq<char>, doc_id: Seq<char>, ph: Seq<char>) -> spec_fn(int, int, Chunk) -> bool {
    |j: int, i: int, c: Chunk|
        {
            let d = yaml_documents(t)[j];
            oversize_chunk_ok(
                c,
                i,
                doc_id,
                k8s_label(),
                ph,
                d.0,
                d.1 as u32,
                d.2 as u32,
                k8s_symbol(yaml_resource_fields(d.0)),
                Some("yaml"@),
                Some(d.1 as u32),
            )
        }
}

/// Some document of the file is not valid YAML.
pub open spec fn any_invalid_yaml(t: Seq<char>) -> bool {
    exists|j: int|
        0 <= j < yaml_documents(t).len() && (#[trigger] yaml_resource_fields(yaml_documents(t)[j].0)) is None
}

/// Kubernetes manifest chunker (`k8s-manifest-resource-v1`).
#[derive(Clone, Copy, Debug, Default)]
pub struct K8sManifestResourceV1Chunker;

impl K8sManifestResourceV1Chunker {
    pub fn chunker_version(&self) -> (res: String)
        ensures
            res@ == k8s_label(),
    {
        String::from_str("k8s-manifest-resource-v1")
    }

    /// First 16 hex characters of the BLAKE3 digest of the policy's
    /// canonical JSON.
    pub fn policy_hash(&self, policy: &ChunkPolicy) -> (res: String)
        ensures
            res@ == policy_hash_spec(*policy, None),
            res@.len() == 16,
            forall|i: int| 0 <= i < 16 ==> is_lower_hex(#[trigger] res@[i]),
    {
        policy_hash_of(policy, None)
    }

    /// Chunk a YAML manifest: no chunks unless the first block is a code
    /// block or when any document is invalid YAML; otherwise the chunks of
    /// each resource document, in order.
    pub fn chunk(&self, doc: &CanonicalDocument, policy: &ChunkPolicy) -> (res: Result<Vec<Chunk>, ChunkError>)
        requires
            first_code_block(*doc) matches Some(cb) ==> lines_spec(cb.code@).len() + 2 < u32::MAX,
        ensures
            match first_code_block(*doc) {
                Some(cb) => res matches Ok(chunks) && (if any_invalid_yaml(cb.code@) {
                    chunks@.len() == 0
                } else {
                    grouped(
                        chunks@,
                        yaml_documents(cb.code@).map_values(|d: (Seq<char>, int, int)| k8s_count(d)),
                        k8s_chunk_ok(cb.code@, doc.doc_id@, policy_hash_spec(*policy, None)),
                    )
                }),
                None => res matches Ok(chunks) && chunks@.len() == 0,
            },
    {
        if doc.blocks.len() == 0 {
            return Ok(Vec::new());
        }
        let cb = match &doc.blocks[0] {
            Block::Code(cb) => cb,
            _ => {
                return Ok(Vec::new());
            },
        };
        let text = cb.code.as_str();
        let slices = split_yaml_documents(text);
        let ghost docs = yaml_documents(text@);
        let ghost counts = docs.map_values(|d: (Seq<char>, int, int)| k8s_count(d));
        let ghost ok = k8s_chunk_ok(text@, doc.doc_id@, policy_hash_spec(*policy, None));
        proof {
            assert(counts.take(0) =~= Seq::<nat>::empty());
            assert(grouped(Seq::<Chunk>::empty(), counts.take(0), ok));
        }
        let mut chunks: Vec<Chunk> = Vec::new();
        let mut j: usize = 0;
        while j < slices.len()
            invariant
                j <= slices@.len(),
                first_code_block(*doc) == Some(*cb),
                text@ == cb.code@,
                slices@.len() == docs.len(),
                docs == yaml_documents(text@),
                counts == docs.map_values(|d: (Seq<char>, int, int)| k8s_count(d)),
                ok == k8s_chunk_ok(text@, doc.doc_id@, policy_hash_spec(*policy, None)),
                lines_spec(text@).len() + 2 < u32::MAX,
                forall|q: int|
                    0 <= q < slices@.len() ==> {
                        &&& (#[trigger] slices@[q]).text@ == docs[q].0
                        &&& slices@[q].line_start as int == docs[q].1
                        &&& slices@[q].line_end as int == docs[q].2
                    },
                forall|q: int| 0 <= q < j ==> yaml_resource_fields(#[trigger] docs[q].0) is Some,
                grouped(chunks@, counts.take(j as int), ok),
            decreases slices@.len() - j,
        {
            let slice = &slices[j];
            let ghost d = docs[j as int];
            proof {
                lemma_yaml_document_lines(text@, j as int);
            }
            let fields = yaml_fields(slice.text.as_str());
            let ghost old_chunks = chunks@;
            match fields {
                None => {
                    proof {
                        assert(fields_view(fields) is None);
                        assert(yaml_resource_fields(docs[j as int].0) is None);
                        assert(any_invalid_yaml(text@));
                    }
                    return Ok(Vec::new());
                },
                Some(None) => {
                    proof {
                        assert(k8s_count(d) == 0);
                        lemma_grouped_append(old_chunks, Seq::<Chunk>::empty(), counts.take(j as int), ok);
                        assert(old_chunks + Seq::<Chunk>::empty() =~= old_chunks);
                        assert(counts.take(j as int).push(0) =~= counts.take(j + 1));
                    }
                },
                Some(Some((api, kind, name, ns))) => {
                    let api_empty = match &api {
                        Some(a) => a.as_str().is_empty(),
                        None => true,
                    };
                    let kind_empty = match &kind {
                        Some(k) => k.as_str().is_empty(),
                        None => true,
                    };
                    if api_empty || kind_empty {
                        proof {
                            assert(k8s_count(d) == 0);
                            lemma_grouped_append(old_chunks, Seq::<Chunk>::empty(), counts.take(j as int), ok);
                            assert(old_chunks + Seq::<Chunk>::empty() =~= old_chunks);
                            assert(counts.take(j as int).push(0) =~= counts.take(j + 1));
                        }
                    } else {
                        let kind_s = match kind {
                            Some(k) => k,
                            None => String::new(),
                        };
                        let name_s = match name {
                            Some(n) => n,
                            None => String::from_str("<unnamed>"),
                        };
                        let symbol = symbol_of(&kind_s, &ns, &name_s);
                        push_chunks_with_oversize(
                            &mut chunks,
                            doc,
                            policy,
                            slice.text.as_str(),
                            slice.line_start,
                            slice.line_end,
                            symbol.as_str(),
                            "yaml",
                            "k8s-manifest-resource-v1",
                            Some(slice.line_start),
                        );
                        proof {
                            let added = chunks@.subrange(old_chunks.len() as int, chunks@.len() as int);
                            assert(k8s_symbol(yaml_resource_fields(d.0)) == Some(symbol@));
                            assert forall|i: int| 0 <= i < added.len() implies ok(j as int, i, #[trigger] added[i]) by {
                            }
                            lemma_grouped_append(old_chunks, added, counts.take(j as int), ok);
                            assert(old_chunks + added =~= chunks@);
                            assert(counts.take(j as int).push(added.len()) =~= counts.take(j + 1));
                        }
                    }
                },
            }
            j = j + 1;
        }
        proof {
            assert(counts.take(slices@.len() as int) =~= counts);
            if any_invalid_yaml(text@) {
                let q = choose|q: int|
                    0 <= q < docs.len() && (#[trigger] yaml_resource_fields(docs[q].0)) is None;
                assert(yaml_resource_fields(docs[q].0) is Some);
            }
        }
        Ok(chunks)
    }
}

} // verus!
