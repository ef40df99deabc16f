use site_qa::index::sip_hash_u64;
use site_qa::text::{clamp_to, normalize_ws, str_eq, str_is_blank, tokenize_lower, usize_to_dec};

#[test]
fn normalize_collapses_runs_and_trims() {
    assert_eq!(normalize_ws("  a\t b\n"), "a b");
    assert_eq!(normalize_ws(""), "");
    assert_eq!(normalize_ws("   \t  "), "");
    assert_eq!(normalize_ws("one"), "one");
    assert_eq!(normalize_ws("one  two\r\nthree"), "one two three");
}

#[test]
fn tokenize_splits_alphanumeric_runs_lowercased() {
    let toks = tokenize_lower("Hello, World-42!");
    assert_eq!(toks, vec!["hello".to_string(), "world".to_string(), "42".to_string()]);
    let empty = tokenize_lower("--  !!");
    assert!(empty.is_empty());
    let mixed = tokenize_lower("ABCdef GHI");
    assert_eq!(mixed, vec!["abcdef".to_string(), "ghi".to_string()]);
}

#[test]
fn clamp_cuts_at_last_whitespace_before_budget() {
    // Budget reached at the 8th character; the last whitespace before it
    // sits after "hello".
    assert_eq!(clamp_to("hello world", 8), "hello");
    // No whitespace in reach: cut just before the stopping character.
    assert_eq!(clamp_to("abcdef", 3), "ab");
    // Shorter than the budget: unchanged.
    assert_eq!(clamp_to("hi", 10), "hi");
}

#[test]
fn clamp_counts_characters_not_bytes() {
    // Four two-byte characters, then a space and more text: a budget of 5
    // stops at the 5th character (the space), cutting there.
    assert_eq!(clamp_to("\u{e4}\u{e4}\u{e4}\u{e4} rest", 5), "\u{e4}\u{e4}\u{e4}\u{e4}");
    // Without whitespace the cut keeps one character less than the budget.
    assert_eq!(clamp_to("\u{e4}\u{e4}\u{e4}\u{e4}\u{e4}", 3), "\u{e4}\u{e4}");
}

#[test]
fn blank_and_equality_helpers() {
    assert!(str_is_blank(" \t\n"));
    assert!(str_is_blank(""));
    assert!(!str_is_blank(" x "));
    assert!(str_eq("abc", "abc"));
    assert!(!str_eq("abc", "abd"));
    assert!(!str_eq("abc", "abcd"));
}

#[test]
fn decimal_rendering() {
    assert_eq!(usize_to_dec(0), "0");
    assert_eq!(usize_to_dec(7), "7");
    assert_eq!(usize_to_dec(345), "345");
    assert_eq!(usize_to_dec(1000), "1000");
}

#[test]
fn text_digest_is_deterministic() {
    assert_eq!(sip_hash_u64("abc"), sip_hash_u64("abc"));
    assert_eq!(sip_hash_u64(""), sip_hash_u64(""));
}
