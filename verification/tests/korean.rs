use kebab::korean::{is_hangul_char, is_ws_char, tokenize_korean_morphological};

#[test]
fn tokenize_korean_morphological_empty_returns_none() {
    assert!(tokenize_korean_morphological("").is_none());
    assert!(tokenize_korean_morphological("   ").is_none());
}

#[test]
fn whitespace_only_text_of_any_kind_returns_none() {
    assert!(tokenize_korean_morphological("\t\n\u{3000}").is_none());
}

#[test]
fn hangul_and_whitespace_classes() {
    assert!(is_hangul_char('가'));
    assert!(is_hangul_char('ㄱ'));
    assert!(!is_hangul_char('a'));
    assert!(is_ws_char(' '));
    assert!(is_ws_char('\u{3000}'));
    assert!(!is_ws_char('x'));
}
