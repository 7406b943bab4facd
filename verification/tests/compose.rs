use feed_bridge::compose::{compose, ComposedPost};
use feed_bridge::richtext::RichTextSegment;

fn plain(text: &str) -> RichTextSegment {
    RichTextSegment::PlainText { text: text.to_string() }
}

fn link(text: &str, target: &str) -> RichTextSegment {
    RichTextSegment::Link { text: text.to_string(), link: target.to_string() }
}

fn spans(post: &ComposedPost) -> Vec<(usize, usize, String)> {
    post.annotations
        .iter()
        .map(|s| (s.byte_start, s.byte_end, s.target_url.clone()))
        .collect()
}

#[test]
fn long_body_is_cut_at_the_budget() {
    let body = vec![plain("Hello world, this is long")];
    let post = compose(&body, 20, "#src:", "https://x/1");
    assert_eq!(post.text, "Hello world, this is...\n#src:https://x/1");
    assert_eq!(spans(&post), vec![(29, 40, "https://x/1".to_string())]);
    assert_eq!(&post.text[29..40], "https://x/1");
}

#[test]
fn short_body_is_kept_whole() {
    let body = vec![plain("Hi "), link("there", "https://t/"), plain("!")];
    let post = compose(&body, 20, " via ", "https://x/1");
    assert_eq!(post.text, "Hi there! via https://x/1");
    assert_eq!(
        spans(&post),
        vec![(3, 8, "https://t/".to_string()), (14, 25, "https://x/1".to_string())]
    );
}

#[test]
fn exact_fit_is_not_cut() {
    let body = vec![plain("12345")];
    let post = compose(&body, 5, "|", "u");
    assert_eq!(post.text, "12345|u");
    assert_eq!(spans(&post), vec![(6, 7, "u".to_string())]);
}

#[test]
fn one_character_over_is_cut() {
    let body = vec![plain("123456")];
    let post = compose(&body, 5, "|", "u");
    assert_eq!(post.text, "12345...\n|u");
    assert_eq!(spans(&post), vec![(10, 11, "u".to_string())]);
}

#[test]
fn spans_count_bytes_and_the_budget_counts_characters() {
    let body = vec![plain("日本"), link("語のリンク", "https://l/"), plain("後")];
    let post = compose(&body, 4, "→", "https://x/1");
    assert_eq!(post.text, "日本語の...\n→https://x/1");
    assert_eq!(
        spans(&post),
        vec![(6, 12, "https://l/".to_string()), (19, 30, "https://x/1".to_string())]
    );
    assert_eq!(&post.text[6..12], "語の");
    assert_eq!(&post.text[19..30], "https://x/1");
    for (start, end, _) in spans(&post) {
        assert!(post.text.is_char_boundary(start));
        assert!(post.text.is_char_boundary(end));
    }
}

#[test]
fn link_after_the_cut_gets_no_span() {
    let body = vec![plain("abcdef"), link("gh", "https://l/")];
    let post = compose(&body, 3, "", "L");
    assert_eq!(post.text, "abc...\nL");
    assert_eq!(spans(&post), vec![(7, 8, "L".to_string())]);
}

#[test]
fn link_at_a_used_up_budget_gets_an_empty_span() {
    let body = vec![plain("abc"), link("gh", "https://l/"), plain("tail")];
    let post = compose(&body, 3, "", "L");
    assert_eq!(post.text, "abc...\nL");
    assert_eq!(spans(&post), vec![(3, 3, "https://l/".to_string()), (7, 8, "L".to_string())]);
}

#[test]
fn empty_body_gives_the_suffix_alone() {
    let body: Vec<RichTextSegment> = vec![];
    let post = compose(&body, 0, "see ", "https://x/1");
    assert_eq!(post.text, "see https://x/1");
    assert_eq!(spans(&post), vec![(4, 15, "https://x/1".to_string())]);
}
