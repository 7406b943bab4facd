use feed_bridge::markup::{MarkupToken, TagAttribute};
use feed_bridge::richtext::from_html_impl::segment_tokens;
use feed_bridge::markup::MAX_DOCUMENT_BYTES;
use feed_bridge::richtext::{from_html, ParseErrorKind, RichTextSegment};

fn shape(segments: &[RichTextSegment]) -> Vec<(String, Option<String>)> {
    segments
        .iter()
        .map(|s| match s {
            RichTextSegment::PlainText { text } => (text.clone(), None),
            RichTextSegment::Link { text, link } => (text.clone(), Some(link.clone())),
        })
        .collect()
}

fn plain(text: &str) -> (String, Option<String>) {
    (text.to_string(), None)
}

fn link(text: &str, target: &str) -> (String, Option<String>) {
    (text.to_string(), Some(target.to_string()))
}

fn chars(text: &str) -> MarkupToken {
    MarkupToken::Characters { text: text.to_string() }
}

fn start(name: &str, attrs: &[(&str, &str)]) -> MarkupToken {
    MarkupToken::StartTag {
        name: name.to_string(),
        attrs: attrs
            .iter()
            .map(|(n, v)| TagAttribute { name: n.to_string(), value: v.to_string() })
            .collect(),
        self_closing: false,
    }
}

fn end(name: &str) -> MarkupToken {
    MarkupToken::EndTag { name: name.to_string() }
}

#[test]
fn text_without_anchors_is_one_plain_segment() {
    let segments = from_html("<p>Hello <b>world</b><br>next</p>").unwrap();
    assert_eq!(shape(&segments), vec![plain("Hello world\nnext")]);
}

#[test]
fn empty_document_has_no_segments() {
    let segments = from_html("").unwrap();
    assert!(segments.is_empty());
}

#[test]
fn anchors_become_links_in_document_order() {
    let segments =
        from_html("see <a href=\"https://a/\">one</a> and <a href=\"https://b/\">two</a>.")
            .unwrap();
    assert_eq!(
        shape(&segments),
        vec![
            plain("see "),
            link("one", "https://a/"),
            plain(" and "),
            link("two", "https://b/"),
            plain("."),
        ]
    );
}

#[test]
fn anchor_without_text_is_an_empty_link() {
    let segments = from_html("<a href=\"https://a/\"></a>x").unwrap();
    assert_eq!(shape(&segments), vec![link("", "https://a/"), plain("x")]);
}

#[test]
fn anchor_without_target_is_plain_text() {
    let segments = from_html("a<a name=\"n\">b</a>c").unwrap();
    assert_eq!(shape(&segments), vec![plain("ab"), plain("c")]);
}

#[test]
fn nested_anchor_is_ignored() {
    let tokens = vec![
        start("a", &[("href", "https://a/")]),
        chars("x"),
        start("a", &[("href", "https://b/")]),
        chars("y"),
        end("a"),
        MarkupToken::EndOfInput,
    ];
    let segments = segment_tokens(&tokens).unwrap();
    assert_eq!(shape(&segments), vec![]);
}

#[test]
fn unicode_text_is_kept_character_by_character() {
    let segments = from_html("日本語<a href=\"https://a/\">リンク</a>").unwrap();
    assert_eq!(shape(&segments), vec![plain("日本語"), link("リンク", "https://a/")]);
}

#[test]
fn entities_are_character_data() {
    let segments = from_html("a &amp; b").unwrap();
    assert_eq!(shape(&segments), vec![plain("a & b")]);
}

#[test]
fn parse_error_gives_no_segments() {
    let error = from_html("before <a href=\"x\" href=\"y\">t</a>").unwrap_err();
    assert_eq!(error.kind, ParseErrorKind::Malformed);
    assert!(!error.message.is_empty());
}

#[test]
fn first_parse_error_is_reported() {
    let tokens = vec![
        chars("a"),
        MarkupToken::ParseError { message: "first".to_string() },
        chars("b"),
        MarkupToken::ParseError { message: "second".to_string() },
        MarkupToken::EndOfInput,
    ];
    let error = segment_tokens(&tokens).unwrap_err();
    assert_eq!(error.kind, ParseErrorKind::Malformed);
    assert_eq!(error.message, "first");
}

#[test]
fn last_href_wins() {
    let tokens = vec![
        start("a", &[("href", "https://a/"), ("class", "c"), ("href", "https://b/")]),
        chars("t"),
        end("a"),
    ];
    let segments = segment_tokens(&tokens).unwrap();
    assert_eq!(shape(&segments), vec![link("t", "https://b/")]);
}

#[test]
fn link_closed_deeper_than_opened_is_dropped() {
    let tokens = vec![
        chars("a"),
        start("a", &[("href", "https://a/")]),
        chars("t"),
        start("br", &[]),
        chars("u"),
        end("a"),
        chars("b"),
        MarkupToken::EndOfInput,
    ];
    let segments = segment_tokens(&tokens).unwrap();
    assert_eq!(shape(&segments), vec![plain("a"), plain("b")]);
}

#[test]
fn open_link_is_completed_at_the_end_of_input() {
    let tokens = vec![start("a", &[("href", "https://a/")]), chars("t"), MarkupToken::EndOfInput];
    let segments = segment_tokens(&tokens).unwrap();
    assert_eq!(shape(&segments), vec![link("t", "https://a/")]);
}

#[test]
fn tokens_without_an_end_token_are_completed() {
    let tokens = vec![chars("a"), MarkupToken::NullCharacter, chars("b")];
    let segments = segment_tokens(&tokens).unwrap();
    assert_eq!(shape(&segments), vec![plain("a\0b")]);
}

#[test]
fn self_closing_anchor_is_an_empty_link() {
    let tokens = vec![
        chars("a"),
        MarkupToken::StartTag {
            name: "a".to_string(),
            attrs: vec![TagAttribute { name: "href".to_string(), value: "u".to_string() }],
            self_closing: true,
        },
        chars("b"),
    ];
    let segments = segment_tokens(&tokens).unwrap();
    assert_eq!(shape(&segments), vec![plain("a"), link("", "u"), plain("b")]);
}

#[test]
fn stray_end_tags_lower_the_depth() {
    let tokens = vec![
        end("b"),
        end("b"),
        start("a", &[("href", "u")]),
        chars("t"),
        end("a"),
    ];
    let segments = segment_tokens(&tokens).unwrap();
    assert_eq!(shape(&segments), vec![link("t", "u")]);
}

#[test]
fn document_beyond_the_limit_is_too_long() {
    assert_eq!(MAX_DOCUMENT_BYTES, 715_827_882);
    let document = " ".repeat(MAX_DOCUMENT_BYTES + 1);
    let error = from_html(&document).unwrap_err();
    assert_eq!(error.kind, ParseErrorKind::TooLong);
    assert_eq!(error.message, "The document is too long.");
}

#[test]
fn null_characters_are_parse_errors() {
    let error = from_html("a<!--\0\0--><b title=\"\0\">b</b>\0").unwrap_err();
    assert_eq!(error.kind, ParseErrorKind::Malformed);
}
