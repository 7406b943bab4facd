use feed_bridge::text::{same_text, utf8_len};

#[test]
fn same_characters_are_the_same_text() {
    assert!(same_text("", ""));
    assert!(same_text("a", "a"));
    assert!(same_text("日本語", "日本語"));
    assert!(!same_text("a", "b"));
    assert!(!same_text("a", "ab"));
    assert!(!same_text("ab", "a"));
    assert!(!same_text("A", "a"));
    assert!(!same_text("日本語", "日本"));
    assert!(!same_text("e\u{301}", "\u{e9}"));
}

#[test]
fn length_counts_bytes() {
    assert_eq!(utf8_len(""), 0);
    assert_eq!(utf8_len("abc"), 3);
    assert_eq!(utf8_len("é"), 2);
    assert_eq!(utf8_len("日本語"), 9);
    assert_eq!(utf8_len("🦀"), 4);
}
