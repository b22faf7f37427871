use kebab::hashing::{id_for_chunk, policy_hash_of, push_decimal, POLICY_HASH_HEX_LEN};
use kebab::model::ChunkPolicy;

fn hash_policy(target: usize, overlap: usize, cv: &str) -> ChunkPolicy {
    ChunkPolicy {
        target_tokens: target,
        overlap_tokens: overlap,
        respect_markdown_headings: true,
        chunker_version: cv.to_string(),
    }
}

fn is_lower_hex(s: &str) -> bool {
    s.chars().all(|c| c.is_ascii_digit() || ('a'..='f').contains(&c))
}

#[test]
fn policy_hash_is_16_lower_hex_chars() {
    let h = policy_hash_of(&hash_policy(500, 80, "md-heading-v1"), None);
    assert_eq!(h.len(), POLICY_HASH_HEX_LEN);
    assert!(is_lower_hex(&h), "{h}");
}

#[test]
fn policy_hash_depends_on_every_field_and_the_budget() {
    let base = policy_hash_of(&hash_policy(500, 80, "md-heading-v1"), None);
    assert_ne!(base, policy_hash_of(&hash_policy(501, 80, "md-heading-v1"), None));
    assert_ne!(base, policy_hash_of(&hash_policy(500, 81, "md-heading-v1"), None));
    assert_ne!(base, policy_hash_of(&hash_policy(500, 80, "md-heading-v2"), None));
    let mut p = hash_policy(500, 80, "md-heading-v1");
    p.respect_markdown_headings = false;
    assert_ne!(base, policy_hash_of(&p, None));
    let with_budget = policy_hash_of(&hash_policy(500, 80, "md-heading-v1"), Some(4000));
    assert_ne!(base, with_budget);
    assert_ne!(with_budget, policy_hash_of(&hash_policy(500, 80, "md-heading-v1"), Some(4001)));
    assert_eq!(with_budget, policy_hash_of(&hash_policy(500, 80, "md-heading-v1"), Some(4000)));
}

#[test]
fn chunk_id_is_64_hex_and_sensitive_to_each_input() {
    let ids = vec!["b1".to_string(), "b2".to_string()];
    let id = id_for_chunk("doc", "md-heading-v1", &ids, "abcd");
    assert_eq!(id.len(), 64);
    assert!(is_lower_hex(&id), "{id}");
    assert_ne!(id, id_for_chunk("doc2", "md-heading-v1", &ids, "abcd"));
    assert_ne!(id, id_for_chunk("doc", "md-heading-v2", &ids, "abcd"));
    assert_ne!(id, id_for_chunk("doc", "md-heading-v1", &vec!["b1".to_string()], "abcd"));
    assert_ne!(id, id_for_chunk("doc", "md-heading-v1", &ids, "abcd#seg0"));
    assert_eq!(id, id_for_chunk("doc", "md-heading-v1", &ids, "abcd"));
}

#[test]
fn chunk_id_fields_are_separated() {
    // Moving a character across a field boundary changes the id.
    let a = id_for_chunk("ab", "c", &vec![], "h");
    let b = id_for_chunk("a", "bc", &vec![], "h");
    assert_ne!(a, b);
}

#[test]
fn push_decimal_writes_base_ten() {
    let mut out: Vec<char> = vec!['#'];
    push_decimal(&mut out, 1200);
    assert_eq!(out.iter().collect::<String>(), "#1200");
    let mut zero: Vec<char> = Vec::new();
    push_decimal(&mut zero, 0);
    assert_eq!(zero.iter().collect::<String>(), "0");
}
