use kebab::oversize::{char_pieces, text_pieces, BYTES_PER_TOKEN};

/// `text_pieces` on a multi-line string reconstructs with join("\n").
#[test]
fn oversize_text_pieces_multiline_roundtrip() {
    let lines: Vec<String> = (0..20)
        .map(|i| format!("line {i:02}: some content here"))
        .collect();
    let text = lines.join("\n");
    let budget = 10usize;
    let pieces = text_pieces(&text, budget);
    assert!(pieces.len() >= 2, "must split multi-line text");
    for p in &pieces {
        assert!(
            p.len().div_ceil(BYTES_PER_TOKEN) <= budget,
            "piece exceeds budget: {} bytes / 3 = {} > {budget}",
            p.len(),
            p.len().div_ceil(BYTES_PER_TOKEN)
        );
    }
    assert_eq!(pieces.join("\n"), text, "pieces must reconstruct original");
}

/// `char_pieces` on a newline-free string reconstructs by concatenation.
#[test]
fn oversize_char_pieces_utf8_roundtrip() {
    let s = "hello가나다world마바사".repeat(10);
    let budget = 5usize;
    let pieces = char_pieces(&s, budget);
    assert!(pieces.len() >= 2);
    for p in &pieces {
        assert!(
            p.len() <= budget * BYTES_PER_TOKEN,
            "char piece too long: {} > {}",
            p.len(),
            budget * BYTES_PER_TOKEN
        );
        assert!(std::str::from_utf8(p.as_bytes()).is_ok(), "not valid UTF-8");
    }
    assert_eq!(pieces.concat(), s, "char pieces must reconstruct original");
}

#[test]
fn text_pieces_under_budget_is_single_piece() {
    let pieces = text_pieces("short line", 100);
    assert_eq!(pieces, vec!["short line".to_string()]);
}

#[test]
fn text_pieces_empty_input_yields_one_empty_piece() {
    assert_eq!(text_pieces("", 10), vec![String::new()]);
    assert_eq!(char_pieces("", 10), vec![String::new()]);
}

#[test]
fn text_pieces_groups_whole_lines_greedily() {
    // Budget 3 tokens = 9 bytes: "aaaa\nbbbb" is exactly 9 bytes.
    let pieces = text_pieces("aaaa\nbbbb\ncccc", 3);
    assert_eq!(pieces, vec!["aaaa\nbbbb".to_string(), "cccc".to_string()]);
}

#[test]
fn char_pieces_exact_split_points() {
    // Budget 1 token = 3 bytes; each Korean syllable is 3 bytes.
    let pieces = char_pieces("가나다", 1);
    assert_eq!(pieces, vec!["가".to_string(), "나".to_string(), "다".to_string()]);
    let ascii = char_pieces("abcdefg", 1);
    assert_eq!(ascii, vec!["abc".to_string(), "def".to_string(), "g".to_string()]);
}

#[test]
fn text_pieces_char_splits_an_overlong_line() {
    let pieces = text_pieces("abcdefgh", 1);
    assert_eq!(pieces, vec!["abc".to_string(), "def".to_string(), "gh".to_string()]);
}

#[test]
fn zero_budget_line_split_is_treated_as_one_token() {
    let pieces = text_pieces("abcd", 0);
    assert_eq!(pieces, vec!["abc".to_string(), "d".to_string()]);
}

#[test]
fn zero_budget_char_split_gives_one_char_per_piece() {
    let pieces = char_pieces("abcd", 0);
    assert_eq!(
        pieces,
        vec!["a".to_string(), "b".to_string(), "c".to_string(), "d".to_string()]
    );
}
