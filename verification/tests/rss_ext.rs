use feed_bridge::rss_ext::{
    get_media, media_problem, parse_file_size, FeedItem, MediaContent, MediaProblem, MediaRating,
    Rating,
};

fn content(
    file_size: Option<&str>,
    typ: Option<&str>,
    url: Option<&str>,
    rating: Option<Option<&str>>,
) -> MediaContent {
    MediaContent {
        file_size: file_size.map(|s| s.to_string()),
        typ: typ.map(|s| s.to_string()),
        url: url.map(|s| s.to_string()),
        rating: rating.map(|value| MediaRating { value: value.map(|s| s.to_string()) }),
    }
}

fn item(media: Option<MediaContent>) -> FeedItem {
    FeedItem { description: None, link: None, media }
}

#[test]
fn complete_media_is_read() {
    let media = get_media(&item(Some(content(
        Some("1024"),
        Some("image/png"),
        Some("https://m/1.png"),
        Some(Some("nonadult")),
    ))))
    .unwrap();
    assert_eq!(media.url, "https://m/1.png");
    assert_eq!(media.file_size, 1024);
    assert_eq!(media.typ, "image/png");
    assert_eq!(media.rating, Rating::NonAdult);
}

#[test]
fn other_ratings_are_other() {
    let media = get_media(&item(Some(content(
        Some("1"),
        Some("image/png"),
        Some("https://m/1.png"),
        Some(Some("adult")),
    ))))
    .unwrap();
    assert_eq!(media.rating, Rating::Other);
    let media = get_media(&item(Some(content(
        Some("1"),
        Some("image/png"),
        Some("https://m/1.png"),
        Some(Some("NonAdult")),
    ))))
    .unwrap();
    assert_eq!(media.rating, Rating::Other);
}

#[test]
fn item_without_media_has_none() {
    assert!(get_media(&item(None)).is_none());
}

#[test]
fn media_without_size_is_none() {
    let c = content(None, Some("image/png"), Some("u"), Some(Some("nonadult")));
    assert!(get_media(&item(Some(c))).is_none());
}

#[test]
fn media_with_unreadable_size_is_none() {
    let c = content(Some("12kb"), Some("image/png"), Some("u"), Some(Some("nonadult")));
    assert!(get_media(&item(Some(c))).is_none());
}

#[test]
fn media_without_type_is_none() {
    let c = content(Some("12"), None, Some("u"), Some(Some("nonadult")));
    assert!(get_media(&item(Some(c))).is_none());
}

#[test]
fn media_without_url_is_none() {
    let c = content(Some("12"), Some("image/png"), None, Some(Some("nonadult")));
    assert!(get_media(&item(Some(c))).is_none());
}

#[test]
fn media_without_rating_is_none() {
    let c = content(Some("12"), Some("image/png"), Some("u"), None);
    assert!(get_media(&item(Some(c))).is_none());
}

#[test]
fn media_with_empty_rating_is_none() {
    let c = content(Some("12"), Some("image/png"), Some("u"), Some(None));
    assert!(get_media(&item(Some(c))).is_none());
}

#[test]
fn sizes_are_read_as_the_standard_library_reads_them() {
    let cases = [
        "0", "7", "42", "007", "+5", "+", "", "-5", "5 ", " 5", "5a", "１２", "1_000",
        "4294967295", "4294967296", "18446744073709551615", "18446744073709551616",
        "99999999999999999999999999", "00000000000000000000000000001", "++1", "+-1",
    ];
    for case in cases {
        assert_eq!(parse_file_size(case), case.parse::<usize>().ok(), "{}", case);
    }
}

#[test]
fn exact_sizes() {
    assert_eq!(parse_file_size("1024"), Some(1024));
    assert_eq!(parse_file_size("+0"), Some(0));
    assert_eq!(parse_file_size("x"), None);
}

#[test]
fn usable_media_and_no_media_have_no_problem() {
    let c = content(Some("12"), Some("image/png"), Some("u"), Some(Some("adult")));
    assert!(media_problem(&item(Some(c))).is_none());
    assert!(media_problem(&item(None)).is_none());
}

#[test]
fn first_problem_is_named() {
    let c = content(None, None, None, None);
    assert!(matches!(media_problem(&item(Some(c))), Some(MediaProblem::MissingFileSize)));
    let c = content(Some("x1"), None, None, None);
    match media_problem(&item(Some(c))) {
        Some(MediaProblem::UnreadableFileSize { text }) => assert_eq!(text, "x1"),
        problem => panic!("{:?}", problem),
    }
    let c = content(Some("1"), None, None, None);
    assert!(matches!(media_problem(&item(Some(c))), Some(MediaProblem::MissingType)));
    let c = content(Some("1"), Some("t"), None, None);
    assert!(matches!(media_problem(&item(Some(c))), Some(MediaProblem::MissingUrl)));
    let c = content(Some("1"), Some("t"), Some("u"), None);
    assert!(matches!(media_problem(&item(Some(c))), Some(MediaProblem::MissingRating)));
    let c = content(Some("1"), Some("t"), Some("u"), Some(None));
    assert!(matches!(media_problem(&item(Some(c))), Some(MediaProblem::MissingRatingValue)));
}

#[test]
fn problem_is_there_exactly_when_media_is_not() {
    let sizes = [None, Some("1"), Some("x")];
    let texts = [None, Some("t")];
    let ratings = [None, Some(None), Some(Some("nonadult")), Some(Some("adult"))];
    for size in sizes {
        for typ in texts {
            for url in texts {
                for rating in ratings {
                    let it = item(Some(content(size, typ, url, rating)));
                    assert_eq!(media_problem(&it).is_some(), get_media(&it).is_none());
                }
            }
        }
    }
}
