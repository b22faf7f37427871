//! Laws on chunk identifiers: chunks that one chunker cuts from the same
//! blocks are told apart by their id hash, and the id hashes it builds for
//! different pieces never coincide, so their identifiers are digests of
//! different inputs.

use vstd::prelude::*;
use crate::hashing::{chunk_id_input, decimal, lemma_chunk_id_input_distinct, lemma_decimal_digits, lemma_decimal_injective};
use crate::md_heading_v2::seg_suffix;
use crate::pdf_page::pdf_suffix;

verus! {

/// Two different pieces of one split chunk never share a digest input: the
/// chunk identifiers of pieces `i` and `j`, `i != j`, are digests of
/// different byte strings.
pub proof fn lemma_piece_ids_from_distinct_inputs(
    doc_id: Seq<char>,
    cv: Seq<char>,
    block_ids: Seq<Seq<char>>,
    ph: Seq<char>,
    i: nat,
    j: nat,
)
    requires
        i != j,
    ensures
        chunk_id_input(doc_id, cv, block_ids, ph + seg_suffix(i)) != chunk_id_input(
            doc_id,
            cv,
            block_ids,
            ph + seg_suffix(j),
        ),
{
    let hi = ph + seg_suffix(i);
    let hj = ph + seg_suffix(j);
    if hi == hj {
        assert(hi.skip(ph.len() as int + 4) =~= decimal(i));
        assert(hj.skip(ph.len() as int + 4) =~= decimal(j));
        lemma_decimal_injective(i, j);
    }
    lemma_chunk_id_input_distinct(doc_id, cv, block_ids, hi, hj);
}

proof fn lemma_pdf_suffix_injective(s1: int, i1: int, single1: bool, s2: int, i2: int, single2: bool)
    requires
        0 <= s1,
        0 <= i1,
        0 <= s2,
        0 <= i2,
        pdf_suffix(s1, i1, single1) == pdf_suffix(s2, i2, single2),
    ensures
        s1 == s2,
        single1 == single2,
        !single1 ==> i1 == i2,
{
    let d1 = decimal(s1 as nat);
    let d2 = decimal(s2 as nat);
    let x = pdf_suffix(s1, i1, single1);
    lemma_decimal_digits(s1 as nat);
    lemma_decimal_digits(s2 as nat);
    assert(forall|k: int| 0 <= k < d1.len() ==> x[k + 2] == d1[k]);
    assert(forall|k: int| 0 <= k < d2.len() ==> x[k + 2] == d2[k]);
    if d1.len() < d2.len() {
        let k = d1.len() as int;
        assert('0' <= d2[k] <= '9');
        if !single1 {
            assert(x[k + 2] == 's');
        }
    } else if d2.len() < d1.len() {
        let k = d2.len() as int;
        assert('0' <= d1[k] <= '9');
        if !single2 {
            assert(pdf_suffix(s2, i2, single2)[k + 2] == 's');
        }
    } else {
        assert(d1 =~= x.subrange(2, 2 + d1.len() as int));
        assert(d2 =~= x.subrange(2, 2 + d2.len() as int));
        lemma_decimal_injective(s1 as nat, s2 as nat);
        if !single1 && !single2 {
            assert(decimal(i1 as nat) =~= x.skip(3 + d1.len() as int));
            assert(decimal(i2 as nat) =~= x.skip(3 + d2.len() as int));
            lemma_decimal_injective(i1 as nat, i2 as nat);
        }
    }
}

/// Two PDF chunks that differ in their segment start, in being a whole
/// segment or a piece of a split one, or in their piece index, take their
/// identifiers from digests of different inputs.
pub proof fn lemma_pdf_ids_from_distinct_inputs(
    doc_id: Seq<char>,
    cv: Seq<char>,
    block_ids: Seq<Seq<char>>,
    ph: Seq<char>,
    s1: int,
    i1: int,
    single1: bool,
    s2: int,
    i2: int,
    single2: bool,
)
    requires
        0 <= s1,
        0 <= i1,
        0 <= s2,
        0 <= i2,
        s1 != s2 || single1 != single2 || (!single1 && i1 != i2),
    ensures
        chunk_id_input(doc_id, cv, block_ids, ph + pdf_suffix(s1, i1, single1)) != chunk_id_input(
            doc_id,
            cv,
            block_ids,
            ph + pdf_suffix(s2, i2, single2),
        ),
{
    let h1 = ph + pdf_suffix(s1, i1, single1);
    let h2 = ph + pdf_suffix(s2, i2, single2);
    if h1 == h2 {
        assert(h1.skip(ph.len() as int) =~= pdf_suffix(s1, i1, single1));
        assert(h2.skip(ph.len() as int) =~= pdf_suffix(s2, i2, single2));
        lemma_pdf_suffix_injective(s1, i1, single1, s2, i2, single2);
    }
    lemma_chunk_id_input_distinct(doc_id, cv, block_ids, h1, h2);
}

} // verus!
