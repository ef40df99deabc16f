use site_qa::segment::chunk_text;

#[test]
fn blank_text_yields_no_windows() {
    assert!(chunk_text("", 5, 2).is_empty());
    assert!(chunk_text("   \t ", 5, 2).is_empty());
}

#[test]
fn windows_overlap_by_exactly_the_overlap() {
    let ws = chunk_text("abcdefghij", 4, 1);
    assert_eq!(ws, vec!["abcd".to_string(), "defg".to_string(), "ghij".to_string()]);
    // Each window starts one character before the previous end.
    assert_eq!(&ws[0][3..], &ws[1][..1]);
    assert_eq!(&ws[1][3..], &ws[2][..1]);
}

#[test]
fn final_window_may_be_shorter() {
    let ws = chunk_text("abcdefgh", 4, 1);
    assert_eq!(ws, vec!["abcd".to_string(), "defg".to_string(), "gh".to_string()]);
}

#[test]
fn single_window_when_text_fits() {
    let ws = chunk_text("abc", 10, 3);
    assert_eq!(ws, vec!["abc".to_string()]);
}

#[test]
fn windows_respect_character_boundaries() {
    // Multi-byte characters count as one each and are never split.
    let ws = chunk_text("\u{e4}\u{f6}\u{fc}\u{df}xy", 3, 1);
    assert_eq!(
        ws,
        vec![
            "\u{e4}\u{f6}\u{fc}".to_string(),
            "\u{fc}\u{df}x".to_string(),
            "xy".to_string(),
        ]
    );
}

#[test]
fn zero_overlap_tiles_the_text() {
    let ws = chunk_text("abcdef", 2, 0);
    assert_eq!(ws, vec!["ab".to_string(), "cd".to_string(), "ef".to_string()]);
}
