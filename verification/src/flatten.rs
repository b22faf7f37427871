//! Outputs made of consecutive groups: item `j` of an input contributes
//! `counts[j]` chunks, and the output is the concatenation of the groups.

use vstd::prelude::*;
use crate::model::Chunk;

verus! {

/// `counts[0] + .. + counts[j - 1]`.
pub open spec fn sum_prefix(counts: Seq<nat>, j: int) -> nat
    decreases j,
{
    if j <= 0 {
        0
    } else {
        sum_prefix(counts, j - 1) + counts[j - 1]
    }
}

/// Chunk `i` of group `j`.
pub open spec fn group_at(out: Seq<Chunk>, counts: Seq<nat>, j: int, i: int) -> Chunk {
    out[sum_prefix(counts, j) + i]
}

/// `out` is the concatenation of groups of sizes `counts`, chunk `i` of
/// group `j` satisfying `ok(j, i, _)`.
pub open spec fn grouped(out: Seq<Chunk>, counts: Seq<nat>, ok: spec_fn(int, int, Chunk) -> bool) -> bool {
    &&& out.len() == sum_prefix(counts, counts.len() as int)
    &&& forall|j: int, i: int|
        0 <= j < counts.len() && 0 <= i < counts[j] ==> ok(j, i, #[trigger] group_at(out, counts, j, i))
}

pub proof fn lemma_sum_prefix_push(counts: Seq<nat>, x: nat, j: int)
    requires
        0 <= j <= counts.len(),
    ensures
        sum_prefix(counts.push(x), j) == sum_prefix(counts, j),
    decreases j,
{
    if j > 0 {
        lemma_sum_prefix_push(counts, x, j - 1);
    }
}

pub proof fn lemma_sum_prefix_mono(counts: Seq<nat>, a: int, b: int)
    requires
        0 <= a <= b,
    ensures
        sum_prefix(counts, a) <= sum_prefix(counts, b),
    decreases b - a,
{
    if a < b {
        lemma_sum_prefix_mono(counts, a, b - 1);
    }
}

/// Appending one more group keeps the layout.
pub proof fn lemma_grouped_append(
    out: Seq<Chunk>,
    added: Seq<Chunk>,
    counts: Seq<nat>,
    ok: spec_fn(int, int, Chunk) -> bool,
)
    requires
        grouped(out, counts, ok),
        forall|i: int| 0 <= i < added.len() ==> ok(counts.len() as int, i, #[trigger] added[i]),
    ensures
        grouped(out + added, counts.push(added.len()), ok),
{
    let nc = counts.push(added.len());
    let no = out + added;
    let len = counts.len() as int;
    lemma_sum_prefix_push(counts, added.len(), len);
    assert(nc[len] == added.len());
    assert forall|j: int, i: int| 0 <= j < nc.len() && 0 <= i < nc[j] implies ok(
        j,
        i,
        #[trigger] group_at(no, nc, j, i),
    ) by {
        if j < len {
            assert(nc[j] == counts[j]);
            lemma_sum_prefix_push(counts, added.len(), j);
            lemma_sum_prefix_mono(counts, j + 1, len);
            assert(group_at(no, nc, j, i) == group_at(out, counts, j, i));
        } else {
            assert(group_at(no, nc, j, i) == added[i]);
        }
    }
}

} // verus!
