use feed_bridge::ledger_store::{join_lines, split_lines};
use std::io::BufRead;

fn lines(ids: &[&str]) -> Vec<String> {
    ids.iter().map(|s| s.to_string()).collect()
}

#[test]
fn text_is_split_at_line_feeds() {
    assert_eq!(split_lines("https://x/1\nhttps://x/2\n"), lines(&["https://x/1", "https://x/2"]));
    assert_eq!(split_lines("a\nb"), lines(&["a", "b"]));
    assert_eq!(split_lines(""), lines(&[]));
    assert_eq!(split_lines("\n"), lines(&[""]));
    assert_eq!(split_lines("a\n\nb\n"), lines(&["a", "", "b"]));
}

#[test]
fn carriage_return_before_line_feed_is_dropped() {
    assert_eq!(split_lines("a\r\nb\r\n"), lines(&["a", "b"]));
    assert_eq!(split_lines("a\r\r\nb\r"), lines(&["a\r", "b\r"]));
    assert_eq!(split_lines("a\rb\n"), lines(&["a\rb"]));
    assert_eq!(split_lines("\r"), lines(&["\r"]));
    assert_eq!(split_lines("\r\n"), lines(&[""]));
}

#[test]
fn lines_are_those_of_the_standard_library() {
    let cases = [
        "", "a", "a\n", "a\nb", "a\r\nb", "\n\n", "\r\n\r\n", "a\r", "a\r\r\n", "\r\ra\n\r",
        "日本語\n語\r\n", "x\n\ry\r\n\nz",
    ];
    for case in cases {
        let expected: Vec<String> = case.as_bytes().lines().map(|l| l.unwrap()).collect();
        assert_eq!(split_lines(case), expected, "{:?}", case);
    }
}

#[test]
fn identifiers_are_joined_one_on_each_line() {
    assert_eq!(join_lines(&lines(&["a", "b"])), "a\nb\n");
    assert_eq!(join_lines(&lines(&[])), "");
    assert_eq!(join_lines(&lines(&["https://x/1"])), "https://x/1\n");
}

#[test]
fn stored_identifiers_are_read_back() {
    let ids = lines(&["https://x/1", "", "https://x/2?a=b", "語"]);
    assert_eq!(split_lines(&join_lines(&ids)), ids);
}

#[test]
fn identifier_with_a_line_feed_is_not_read_back() {
    let ids = lines(&["a\nb"]);
    assert_eq!(split_lines(&join_lines(&ids)), lines(&["a", "b"]));
}
