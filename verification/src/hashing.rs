//! Policy hashes and chunk identifiers.
//!
//! The policy hash is the first 16 hex characters of the BLAKE3 digest of
//! the policy's canonical (RFC 8785) JSON, optionally followed by the
//! little-endian bytes of a chunker's split budget. A chunk identifier is
//! the BLAKE3 digest of the document id, chunker version, block ids and an
//! id hash, each followed by a NUL byte.

use vstd::prelude::*;
use crate::model::ChunkPolicy;
use crate::text::{chars_of, string_from_chars};
use serde_json::Value;

verus! {

/// Hex characters kept from the digest in a policy hash.
pub const POLICY_HASH_HEX_LEN: usize = 16;

/// The canonical JSON bytes of a chunk policy with these field values
/// (`serde_json_canonicalizer`'s RFC 8785 serialization of the object
/// `{target_tokens, overlap_tokens, respect_markdown_headings, chunker_version}`).
pub uninterp spec fn canonical_policy_json(
    target_tokens: usize,
    overlap_tokens: usize,
    respect_markdown_headings: bool,
    chunker_version: Seq<char>,
) -> Seq<u8>;

/// The lowercase hex BLAKE3 digest of `data`.
pub uninterp spec fn blake3_hex(data: Seq<u8>) -> Seq<char>;

/// A lowercase hexadecimal digit.
pub open spec fn is_lower_hex(c: char) -> bool {
    ('0' <= c <= '9') || ('a' <= c <= 'f')
}

/// Canonical JSON of `policy` via `serde_json_canonicalizer::to_vec`.
///
/// The crate renders numbers through `f64` and fails only on non-finite
/// numbers or non-string/duplicate map keys, none of which this object can
/// hold; the contract therefore names the output and promises no failure.
#[verifier::external_body]
fn policy_canonical_json(policy: &ChunkPolicy) -> (res: Vec<u8>)
    ensures
        res@ == canonical_policy_json(
            policy.target_tokens,
            policy.overlap_tokens,
            policy.respect_markdown_headings,
            policy.chunker_version@,
        ),
{
    let m = serde_json::Map::from_iter([
        (String::from("target_tokens"), Value::from(policy.target_tokens)),
        (String::from("overlap_tokens"), Value::from(policy.overlap_tokens)),
        (String::from("respect_markdown_headings"), Value::from(policy.respect_markdown_headings)),
        (String::from("chunker_version"), Value::from(policy.chunker_version.as_str())),
    ]);
    serde_json_canonicalizer::to_vec(&Value::Object(m)).unwrap_or_default()
}

/// `blake3::hash(data).to_hex()`: 64 lowercase hex characters, as the
/// crate's `Hash::to_hex` writes two digits from `0123456789abcdef` per
/// digest byte.
#[verifier::external_body]
fn blake3_hex_digest(data: &Vec<u8>) -> (res: String)
    ensures
        res@ == blake3_hex(data@),
        res@.len() == 64,
        forall|i: int| 0 <= i < res@.len() ==> is_lower_hex(#[trigger] res@[i]),
{
    blake3::hash(data.as_slice()).to_hex().to_string()
}

/// The `n`-byte little-endian encoding of `x`.
pub open spec fn le_bytes(x: nat, n: nat) -> Seq<u8>
    decreases n,
{
    if n == 0 {
        seq![]
    } else {
        seq![(x % 256) as u8] + le_bytes(x / 256, (n - 1) as nat)
    }
}

/// Bytes of `usize` on this target.
pub open spec fn usize_bytes() -> nat {
    (usize::BITS / 8) as nat
}

/// The bytes hashed for a policy, with the split budget appended when given.
pub open spec fn policy_hash_input(policy: ChunkPolicy, budget: Option<usize>) -> Seq<u8> {
    let json = canonical_policy_json(
        policy.target_tokens,
        policy.overlap_tokens,
        policy.respect_markdown_headings,
        policy.chunker_version@,
    );
    match budget {
        Some(b) => json + le_bytes(b as nat, usize_bytes()),
        None => json,
    }
}

/// The policy hash: the first 16 hex characters of the digest.
pub open spec fn policy_hash_spec(policy: ChunkPolicy, budget: Option<usize>) -> Seq<char> {
    blake3_hex(policy_hash_input(policy, budget)).take(16)
}

/// `256` to the power `n`.
pub open spec fn pow256(n: nat) -> nat
    decreases n,
{
    if n == 0 {
        1
    } else {
        256 * pow256((n - 1) as nat)
    }
}

proof fn lemma_le_bytes_injective(x: nat, y: nat, n: nat)
    requires
        x < pow256(n),
        y < pow256(n),
        le_bytes(x, n) == le_bytes(y, n),
    ensures
        x == y,
    decreases n,
{
    if n > 0 {
        let p = pow256((n - 1) as nat);
        assert(le_bytes(x, n)[0] == le_bytes(y, n)[0]);
        let xb = x % 256;
        let yb = y % 256;
        assert(xb as u8 == xb);
        assert(yb as u8 == yb);
        assert(le_bytes(x, n) == seq![xb as u8] + le_bytes(x / 256, (n - 1) as nat));
        assert(le_bytes(y, n) == seq![yb as u8] + le_bytes(y / 256, (n - 1) as nat));
        assert(le_bytes(x, n)[0] == xb as u8);
        assert(le_bytes(y, n)[0] == yb as u8);
        assert(x % 256 == y % 256);
        assert(le_bytes(x, n).skip(1) =~= le_bytes(x / 256, (n - 1) as nat));
        assert(le_bytes(y, n).skip(1) =~= le_bytes(y / 256, (n - 1) as nat));
        assert(x / 256 < p) by (nonlinear_arith)
            requires
                x < 256 * p,
        ;
        assert(y / 256 < p) by (nonlinear_arith)
            requires
                y < 256 * p,
        ;
        lemma_le_bytes_injective(x / 256, y / 256, (n - 1) as nat);
    }
}

proof fn lemma_usize_below_pow()
    ensures
        usize::MAX < pow256(usize_bytes()),
{
    reveal_with_fuel(pow256, 9);
    assert(pow256(4) == 0x1_0000_0000);
    assert(pow256(8) == 0x1_0000_0000_0000_0000);
}

/// The split budget is part of the policy hash input: two different
/// budgets never give the same input for one policy.
pub proof fn lemma_budget_changes_policy_input(policy: ChunkPolicy, b1: usize, b2: usize)
    requires
        b1 != b2,
    ensures
        policy_hash_input(policy, Some(b1)) != policy_hash_input(policy, Some(b2)),
{
    let json = canonical_policy_json(
        policy.target_tokens,
        policy.overlap_tokens,
        policy.respect_markdown_headings,
        policy.chunker_version@,
    );
    let n = usize_bytes();
    if policy_hash_input(policy, Some(b1)) == policy_hash_input(policy, Some(b2)) {
        assert(policy_hash_input(policy, Some(b1)).skip(json.len() as int) =~= le_bytes(b1 as nat, n));
        assert(policy_hash_input(policy, Some(b2)).skip(json.len() as int) =~= le_bytes(b2 as nat, n));
        lemma_usize_below_pow();
        lemma_le_bytes_injective(b1 as nat, b2 as nat, n);
    }
}

/// Append the `usize_bytes()` little-endian bytes of `x` to `out`.
fn push_le_bytes(out: &mut Vec<u8>, x: usize)
    ensures
        final(out)@ == old(out)@ + le_bytes(x as nat, usize_bytes()),
{
    let n: u32 = usize::BITS / 8;
    let mut k: u32 = 0;
    let mut rest: usize = x;
    let ghost start = out@;
    proof {
        assert(start + le_bytes(x as nat, 0) =~= start);
    }
    while k < n
        invariant
            n == usize::BITS / 8,
            k <= n,
            out@ + le_bytes(rest as nat, (n - k) as nat) == start + le_bytes(x as nat, n as nat),
        decreases n - k,
    {
        let byte = (rest % 256) as u8;
        proof {
            let tail = le_bytes((rest / 256) as nat, (n - k - 1) as nat);
            assert(le_bytes(rest as nat, (n - k) as nat) == seq![byte] + tail);
            assert(out@.push(byte) + tail =~= out@ + (seq![byte] + tail));
        }
        out.push(byte);
        rest = rest / 256;
        k = k + 1;
    }
    proof {
        assert(out@ + le_bytes(rest as nat, 0) =~= out@);
    }
}

/// The policy hash of `policy`, with the split budget folded in when given.
pub fn policy_hash_of(policy: &ChunkPolicy, budget: Option<usize>) -> (res: String)
    ensures
        res@ == policy_hash_spec(*policy, budget),
        res@.len() == 16,
        forall|i: int| 0 <= i < 16 ==> is_lower_hex(#[trigger] res@[i]),
{
    let mut bytes = policy_canonical_json(policy);
    match budget {
        Some(b) => push_le_bytes(&mut bytes, b),
        None => {},
    }
    let hex = blake3_hex_digest(&bytes);
    let chars = chars_of(hex.as_str());
    let mut first: Vec<char> = Vec::new();
    let mut i: usize = 0;
    while i < POLICY_HASH_HEX_LEN
        invariant
            i <= 16,
            chars@ == hex@,
            hex@.len() == 64,
            first@ == hex@.take(i as int),
        decreases 16 - i,
    {
        first.push(chars[i]);
        proof {
            assert(hex@.take(i + 1) =~= hex@.take(i as int).push(hex@[i as int]));
        }
        i = i + 1;
    }
    let res = string_from_chars(&first);
    proof {
        assert(res@ =~= blake3_hex(policy_hash_input(*policy, budget)).take(16));
        assert forall|i: int| 0 <= i < 16 implies is_lower_hex(#[trigger] res@[i]) by {
            assert(res@[i] == hex@[i]);
        }
    }
    res
}

/// UTF-8 bytes of `s` followed by a NUL byte.
pub open spec fn field_bytes(s: Seq<char>) -> Seq<u8> {
    vstd::utf8::encode_utf8(s).push(0u8)
}

/// Field bytes of each of `ids`, in order.
pub open spec fn ids_bytes(ids: Seq<Seq<char>>) -> Seq<u8>
    decreases ids.len(),
{
    if ids.len() == 0 {
        seq![]
    } else {
        ids_bytes(ids.drop_last()) + field_bytes(ids.last())
    }
}

/// The bytes a chunk identifier is the digest of.
pub open spec fn chunk_id_input(
    doc_id: Seq<char>,
    chunker_version: Seq<char>,
    block_ids: Seq<Seq<char>>,
    id_hash: Seq<char>,
) -> Seq<u8> {
    field_bytes(doc_id) + field_bytes(chunker_version) + ids_bytes(block_ids) + field_bytes(id_hash)
}

/// A chunk identifier.
pub open spec fn chunk_id_spec(
    doc_id: Seq<char>,
    chunker_version: Seq<char>,
    block_ids: Seq<Seq<char>>,
    id_hash: Seq<char>,
) -> Seq<char> {
    blake3_hex(chunk_id_input(doc_id, chunker_version, block_ids, id_hash))
}

fn push_field(out: &mut Vec<u8>, s: &str)
    ensures
        final(out)@ == old(out)@ + field_bytes(s@),
{
    out.extend_from_slice(s.as_bytes());
    out.push(0u8);
    proof {
        assert(final(out)@ =~= old(out)@ + field_bytes(s@));
    }
}

/// The identifier of a chunk made by `chunker_version` from `block_ids` of
/// document `doc_id`; `id_hash` is the policy hash, possibly suffixed to tell
/// apart chunks cut from the same blocks.
pub fn id_for_chunk(doc_id: &str, chunker_version: &str, block_ids: &Vec<String>, id_hash: &str) -> (res: String)
    ensures
        res@ == chunk_id_spec(
            doc_id@,
            chunker_version@,
            block_ids@.map_values(|b: String| b@),
            id_hash@,
        ),
        res@.len() == 64,
{
    let mut bytes: Vec<u8> = Vec::new();
    push_field(&mut bytes, doc_id);
    push_field(&mut bytes, chunker_version);
    let ghost prefix = bytes@;
    let ghost ids = block_ids@.map_values(|b: String| b@);
    let mut i: usize = 0;
    while i < block_ids.len()
        invariant
            i <= block_ids.len(),
            ids == block_ids@.map_values(|b: String| b@),
            bytes@ == prefix + ids_bytes(ids.take(i as int)),
        decreases block_ids.len() - i,
    {
        push_field(&mut bytes, block_ids[i].as_str());
        proof {
            assert(ids.take(i + 1).drop_last() =~= ids.take(i as int));
            assert(ids.take(i + 1).last() == block_ids@[i as int]@);
        }
        i = i + 1;
    }
    proof {
        assert(ids.take(block_ids.len() as int) =~= ids);
    }
    push_field(&mut bytes, id_hash);
    let res = blake3_hex_digest(&bytes);
    proof {
        assert(bytes@ =~= chunk_id_input(doc_id@, chunker_version@, ids, id_hash@));
    }
    res
}

/// Decimal digits of `n`.
pub open spec fn decimal(n: nat) -> Seq<char>
    decreases n,
{
    if n < 10 {
        seq![digit_char(n)]
    } else {
        decimal(n / 10).push(digit_char(n % 10))
    }
}

pub open spec fn digit_char(d: nat) -> char {
    if d == 0 {
        '0'
    } else if d == 1 {
        '1'
    } else if d == 2 {
        '2'
    } else if d == 3 {
        '3'
    } else if d == 4 {
        '4'
    } else if d == 5 {
        '5'
    } else if d == 6 {
        '6'
    } else if d == 7 {
        '7'
    } else if d == 8 {
        '8'
    } else {
        '9'
    }
}

fn digit(d: u64) -> (c: char)
    requires
        d < 10,
    ensures
        c == digit_char(d as nat),
{
    if d == 0 {
        '0'
    } else if d == 1 {
        '1'
    } else if d == 2 {
        '2'
    } else if d == 3 {
        '3'
    } else if d == 4 {
        '4'
    } else if d == 5 {
        '5'
    } else if d == 6 {
        '6'
    } else if d == 7 {
        '7'
    } else if d == 8 {
        '8'
    } else {
        '9'
    }
}

/// Append the decimal digits of `n` to `out`.
pub fn push_decimal(out: &mut Vec<char>, n: u64)
    ensures
        final(out)@ == old(out)@ + decimal(n as nat),
    decreases n,
{
    if n < 10 {
        out.push(digit(n));
        proof {
            assert(final(out)@ =~= old(out)@ + decimal(n as nat));
        }
    } else {
        push_decimal(out, n / 10);
        out.push(digit(n % 10));
        proof {
            assert(final(out)@ =~= old(out)@ + decimal(n as nat));
        }
    }
}

/// Distinct numbers have distinct decimal digits.
pub proof fn lemma_decimal_injective(a: nat, b: nat)
    requires
        decimal(a) == decimal(b),
    ensures
        a == b,
    decreases a,
{
    lemma_decimal_len(a);
    lemma_decimal_len(b);
    lemma_decimal_last(a);
    lemma_decimal_last(b);
    lemma_digit_char_injective(a % 10, b % 10);
    if a >= 10 && b >= 10 {
        assert(decimal(a).drop_last() == decimal(a / 10));
        assert(decimal(b).drop_last() == decimal(b / 10));
        lemma_decimal_injective(a / 10, b / 10);
    }
}

/// Every character of `decimal(n)` is an ASCII digit.
pub proof fn lemma_decimal_digits(n: nat)
    ensures
        forall|k: int| 0 <= k < decimal(n).len() ==> '0' <= #[trigger] decimal(n)[k] <= '9',
    decreases n,
{
    if n >= 10 {
        lemma_decimal_digits(n / 10);
        assert forall|k: int| 0 <= k < decimal(n).len() implies '0' <= #[trigger] decimal(n)[k] <= '9' by {
            if k < decimal(n / 10).len() {
                assert(decimal(n)[k] == decimal(n / 10)[k]);
            }
        }
    }
}

proof fn lemma_decimal_last(n: nat)
    ensures
        decimal(n).len() >= 1,
        decimal(n).last() == digit_char(n % 10),
{
    lemma_decimal_len(n);
}

proof fn lemma_digit_char_injective(x: nat, y: nat)
    requires
        x < 10,
        y < 10,
        digit_char(x) == digit_char(y),
    ensures
        x == y,
{
}

proof fn lemma_decimal_len(n: nat)
    ensures
        decimal(n).len() >= 1,
        n < 10 <==> decimal(n).len() == 1,
    decreases n,
{
    if n >= 10 {
        lemma_decimal_len(n / 10);
    }
}

/// Chunk identifiers computed with different id hashes are digests of
/// different inputs.
pub proof fn lemma_chunk_id_input_distinct(
    doc_id: Seq<char>,
    chunker_version: Seq<char>,
    block_ids: Seq<Seq<char>>,
    h1: Seq<char>,
    h2: Seq<char>,
)
    requires
        h1 != h2,
    ensures
        chunk_id_input(doc_id, chunker_version, block_ids, h1) != chunk_id_input(
            doc_id,
            chunker_version,
            block_ids,
            h2,
        ),
{
    let pre = field_bytes(doc_id) + field_bytes(chunker_version) + ids_bytes(block_ids);
    if chunk_id_input(doc_id, chunker_version, block_ids, h1) == chunk_id_input(doc_id, chunker_version, block_ids, h2) {
        let x1 = pre + field_bytes(h1);
        let x2 = pre + field_bytes(h2);
        assert(x1 == x2);
        assert(x1.skip(pre.len() as int) =~= field_bytes(h1));
        assert(x2.skip(pre.len() as int) =~= field_bytes(h2));
        assert(field_bytes(h1).drop_last() =~= vstd::utf8::encode_utf8(h1));
        assert(field_bytes(h2).drop_last() =~= vstd::utf8::encode_utf8(h2));
        vstd::utf8::encode_utf8_decode_utf8(h1);
        vstd::utf8::encode_utf8_decode_utf8(h2);
    }
}

} // verus!
