use feed_bridge::compose::reserve_budget;
use feed_bridge::driver::{
    decide, describe_note, image_note, plan_post, postable_image, report, Driver, DriverAction, DriverEvent, DriverPhase,
    ImageNote, ItemDecision, MissingField, Settings,
};
use feed_bridge::ledger::Ledger;
use feed_bridge::richtext::{MarkupParseError, ParseErrorKind, RichTextSegment};
use feed_bridge::rss_ext::{FeedItem, MediaContent, MediaProblem, MediaRating};

fn settings(limit: usize, trailing: &str, dry_run: bool) -> Settings {
    Settings { post_text_limit: limit, trailing_text: trailing.to_string(), dry_run }
}

fn item(description: Option<&str>, link: Option<&str>) -> FeedItem {
    FeedItem {
        description: description.map(|s| s.to_string()),
        link: link.map(|s| s.to_string()),
        media: None,
    }
}

fn with_media(mut item: FeedItem, rating: &str, url: &str) -> FeedItem {
    item.media = Some(MediaContent {
        file_size: Some("10".to_string()),
        typ: Some("image/png".to_string()),
        url: Some(url.to_string()),
        rating: Some(MediaRating { value: Some(rating.to_string()) }),
    });
    item
}

fn lines(ids: &[&str]) -> Vec<String> {
    ids.iter().map(|s| s.to_string()).collect()
}

fn loaded(ids: &[&str], max: usize) -> Ledger {
    let mut ledger = Ledger::new(max);
    ledger.load(lines(ids));
    ledger
}

fn posted() -> DriverEvent {
    DriverEvent::Posted { cid: "cid".to_string(), uri: "at://post".to_string() }
}

#[test]
fn budget_sets_the_suffix_and_the_marker_aside() {
    assert_eq!(reserve_budget(300, "#src:", "https://x/1"), 300 - 5 - 11 - 4);
    assert_eq!(reserve_budget(20, "#src:", "https://x/1"), 0);
    assert_eq!(reserve_budget(19, "#src:", "https://x/1"), 0);
    assert_eq!(reserve_budget(21, "#src:", "https://x/1"), 1);
    assert_eq!(reserve_budget(0, "", ""), 0);
    assert_eq!(reserve_budget(4, "", ""), 0);
    assert_eq!(reserve_budget(10, "日本", "語"), 3);
}

#[test]
fn post_stays_within_the_limit() {
    let ledger = loaded(&[], 10);
    let body = "x".repeat(500);
    let decision = decide(
        &item(Some(&body), Some("https://x/1")),
        &ledger,
        &settings(60, "#src:", false),
    );
    match decision {
        ItemDecision::Submit { post, .. } => {
            assert_eq!(post.text.chars().count(), 60);
            assert!(post.text.ends_with("x...\n#src:https://x/1"));
        }
        other => panic!("{:?}", other),
    }
}

#[test]
fn item_without_body_is_rejected() {
    let ledger = loaded(&[], 10);
    let decision = decide(&item(None, Some("https://x/1")), &ledger, &settings(300, "", false));
    assert!(matches!(decision, ItemDecision::Rejected { missing: MissingField::Body }));
    let decision = decide(&item(None, None), &ledger, &settings(300, "", false));
    assert!(matches!(decision, ItemDecision::Rejected { missing: MissingField::Body }));
}

#[test]
fn item_without_link_is_rejected() {
    let ledger = loaded(&[], 10);
    let decision = decide(&item(Some("text"), None), &ledger, &settings(300, "", false));
    assert!(matches!(decision, ItemDecision::Rejected { missing: MissingField::Link }));
}

#[test]
fn known_link_is_passed_over() {
    let ledger = loaded(&["https://x/1"], 10);
    let decision =
        decide(&item(Some("text"), Some("https://x/1")), &ledger, &settings(300, "", false));
    match decision {
        ItemDecision::AlreadyPosted { link } => assert_eq!(link, "https://x/1"),
        other => panic!("{:?}", other),
    }
}

#[test]
fn new_item_is_composed_and_submitted() {
    let ledger = loaded(&["https://x/1"], 10);
    let decision = decide(
        &item(Some("<p>Hello <a href=\"https://t/\">there</a></p>"), Some("https://x/2")),
        &ledger,
        &settings(300, " via ", false),
    );
    match decision {
        ItemDecision::Submit { link, post, image_url, image_note } => {
            assert!(image_note.is_none());
            assert_eq!(link, "https://x/2");
            assert_eq!(post.text, "Hello there via https://x/2");
            assert_eq!(post.annotations.len(), 2);
            assert_eq!(post.annotations[0].byte_start, 6);
            assert_eq!(post.annotations[0].byte_end, 11);
            assert_eq!(post.annotations[0].target_url, "https://t/");
            assert_eq!(post.annotations[1].byte_start, 16);
            assert_eq!(post.annotations[1].byte_end, 27);
            assert_eq!(post.annotations[1].target_url, "https://x/2");
            assert_eq!(image_url, None);
        }
        other => panic!("{:?}", other),
    }
}

#[test]
fn dry_run_previews() {
    let ledger = loaded(&[], 10);
    let decision =
        decide(&item(Some("text"), Some("https://x/2")), &ledger, &settings(300, "|", true));
    match decision {
        ItemDecision::Preview { link, post, .. } => {
            assert_eq!(link, "https://x/2");
            assert_eq!(post.text, "text|https://x/2");
        }
        other => panic!("{:?}", other),
    }
}

#[test]
fn broken_markup_ends_the_cycle() {
    let ledger = loaded(&[], 10);
    let decision = decide(
        &item(Some("<a href=\"x\" href=\"y\">t</a>"), Some("https://x/2")),
        &ledger,
        &settings(300, "|", false),
    );
    match decision {
        ItemDecision::Abort { link, error } => {
            assert_eq!(link, "https://x/2");
            assert!(!error.message.is_empty());
        }
        other => panic!("{:?}", other),
    }
}

#[test]
fn plan_follows_the_segmentation() {
    let it = item(Some("ignored"), Some("https://x/2"));
    let segments = vec![RichTextSegment::PlainText { text: "body".to_string() }];
    let decision = plan_post(&it, "https://x/2", Ok(segments), &settings(300, "|", false));
    match decision {
        ItemDecision::Submit { post, .. } => assert_eq!(post.text, "body|https://x/2"),
        other => panic!("{:?}", other),
    }
    let error = MarkupParseError { kind: ParseErrorKind::Malformed, message: "bad".to_string() };
    let decision = plan_post(&it, "https://x/2", Err(error), &settings(300, "|", false));
    match decision {
        ItemDecision::Abort { link, error } => {
            assert_eq!(link, "https://x/2");
            assert_eq!(error.message, "bad");
        }
        other => panic!("{:?}", other),
    }
}

#[test]
fn only_images_for_everyone_are_posted() {
    let plain = item(Some("t"), Some("l"));
    assert_eq!(postable_image(&plain), None);
    let safe = with_media(item(Some("t"), Some("l")), "nonadult", "https://m/1.png");
    assert_eq!(postable_image(&safe), Some("https://m/1.png".to_string()));
    let other = with_media(item(Some("t"), Some("l")), "adult", "https://m/1.png");
    assert_eq!(postable_image(&other), None);
}

#[test]
fn only_the_new_item_is_submitted() {
    let feed = vec![
        item(Some("second"), Some("https://x/2")),
        item(Some("first"), Some("https://x/1")),
    ];
    let mut driver = Driver::new(lines(&["https://x/1"]), 50, feed, settings(300, "|", false));
    assert_eq!(driver.phase(), DriverPhase::Ready);
    assert_eq!(driver.remaining(), 2);
    match driver.step(DriverEvent::Proceed) {
        DriverAction::Item { decision: ItemDecision::AlreadyPosted { link } } => {
            assert_eq!(link, "https://x/1")
        }
        other => panic!("{:?}", other),
    }
    assert_eq!(driver.phase(), DriverPhase::Ready);
    match driver.step(DriverEvent::Proceed) {
        DriverAction::Item { decision: ItemDecision::Submit { link, post, .. } } => {
            assert_eq!(link, "https://x/2");
            assert_eq!(post.text, "second|https://x/2");
        }
        other => panic!("{:?}", other),
    }
    assert_eq!(driver.phase(), DriverPhase::Awaiting);
    match driver.step(posted()) {
        DriverAction::Record { link, cid, uri } => {
            assert_eq!(link, "https://x/2");
            assert_eq!(cid, "cid");
            assert_eq!(uri, "at://post");
        }
        other => panic!("{:?}", other),
    }
    assert_eq!(driver.remaining(), 0);
    match driver.step(DriverEvent::Proceed) {
        DriverAction::Rewrite { retained } => {
            assert_eq!(retained, lines(&["https://x/1", "https://x/2"]))
        }
        other => panic!("{:?}", other),
    }
    assert_eq!(driver.phase(), DriverPhase::Done);
    assert!(matches!(driver.step(DriverEvent::Proceed), DriverAction::Unexpected));
}

#[test]
fn rewrite_keeps_the_most_recent_of_all_known() {
    let feed = vec![item(Some("new"), Some("n1"))];
    let mut driver =
        Driver::new(lines(&["h1", "h2", "h3", "h4", "h5"]), 2, feed, settings(300, "|", false));
    assert!(matches!(
        driver.step(DriverEvent::Proceed),
        DriverAction::Item { decision: ItemDecision::Submit { .. } }
    ));
    assert!(matches!(driver.step(posted()), DriverAction::Record { .. }));
    match driver.step(DriverEvent::Proceed) {
        DriverAction::Rewrite { retained } => assert_eq!(retained, lines(&["h5", "n1"])),
        other => panic!("{:?}", other),
    }
}

#[test]
fn second_cycle_submits_nothing() {
    let feed = || {
        vec![
            item(Some("c"), Some("https://x/3")),
            item(None, Some("https://x/0")),
            item(Some("b"), Some("https://x/2")),
            item(Some("a"), Some("https://x/1")),
        ]
    };
    let mut stored = lines(&["https://x/1"]);
    let mut submitted = Vec::new();
    for _ in 0..2 {
        let mut driver = Driver::new(stored.clone(), 10, feed(), settings(300, "|", false));
        let mut event = DriverEvent::Proceed;
        loop {
            match driver.step(event) {
                DriverAction::Item { decision: ItemDecision::Submit { link, .. } } => {
                    submitted.push(link);
                    event = posted();
                }
                DriverAction::Rewrite { retained } => {
                    stored = retained;
                    break;
                }
                DriverAction::Item { .. } | DriverAction::Record { .. } => {
                    event = DriverEvent::Proceed
                }
                other => panic!("{:?}", other),
            }
        }
        assert_eq!(stored, lines(&["https://x/1", "https://x/2", "https://x/3"]));
    }
    assert_eq!(submitted, lines(&["https://x/2", "https://x/3"]));
}

#[test]
fn failed_submission_ends_the_cycle() {
    let feed = vec![item(Some("b"), Some("l2")), item(Some("a"), Some("l1"))];
    let mut driver = Driver::new(lines(&[]), 10, feed, settings(300, "|", false));
    assert!(matches!(driver.step(DriverEvent::Proceed), DriverAction::Item { .. }));
    match driver.step(DriverEvent::PostFailed { message: "refused".to_string() }) {
        DriverAction::AbortOnPosting { link, message } => {
            assert_eq!(link, "l1");
            assert_eq!(message, "refused");
        }
        other => panic!("{:?}", other),
    }
    assert_eq!(driver.phase(), DriverPhase::Aborted);
    assert!(matches!(driver.step(DriverEvent::Proceed), DriverAction::Unexpected));
    assert_eq!(driver.remaining(), 1);
}

#[test]
fn rejected_item_does_not_end_the_cycle() {
    let feed = vec![item(Some("b"), Some("l2")), item(Some("a"), None)];
    let mut driver = Driver::new(lines(&[]), 10, feed, settings(300, "|", false));
    assert!(matches!(
        driver.step(DriverEvent::Proceed),
        DriverAction::Item { decision: ItemDecision::Rejected { missing: MissingField::Link } }
    ));
    assert_eq!(driver.phase(), DriverPhase::Ready);
    assert!(matches!(
        driver.step(DriverEvent::Proceed),
        DriverAction::Item { decision: ItemDecision::Submit { .. } }
    ));
}

#[test]
fn broken_markup_aborts_the_driver() {
    let feed = vec![item(Some("<a href=\"x\" href=\"y\">t</a>"), Some("l1"))];
    let mut driver = Driver::new(lines(&[]), 10, feed, settings(300, "|", false));
    assert!(matches!(
        driver.step(DriverEvent::Proceed),
        DriverAction::Item { decision: ItemDecision::Abort { .. } }
    ));
    assert_eq!(driver.phase(), DriverPhase::Aborted);
}

#[test]
fn dry_run_writes_nothing() {
    let feed = vec![item(Some("a"), Some("l1"))];
    let mut driver = Driver::new(lines(&["h1"]), 10, feed, settings(300, "|", true));
    assert!(matches!(
        driver.step(DriverEvent::Proceed),
        DriverAction::Item { decision: ItemDecision::Preview { .. } }
    ));
    assert_eq!(driver.phase(), DriverPhase::Ready);
    assert!(matches!(driver.step(DriverEvent::Proceed), DriverAction::Finish));
    assert_eq!(driver.phase(), DriverPhase::Done);
}

#[test]
fn events_that_do_not_fit_change_nothing() {
    let feed = vec![item(Some("a"), Some("l1"))];
    let mut driver = Driver::new(lines(&[]), 10, feed, settings(300, "|", false));
    assert!(matches!(driver.step(posted()), DriverAction::Unexpected));
    assert_eq!(driver.remaining(), 1);
    assert!(matches!(driver.step(DriverEvent::Proceed), DriverAction::Item { .. }));
    assert!(matches!(driver.step(DriverEvent::Proceed), DriverAction::Unexpected));
    assert_eq!(driver.phase(), DriverPhase::Awaiting);
}

#[test]
fn already_posted_item_is_reported() {
    let feed = vec![
        item(Some("second"), Some("https://x/2")),
        item(Some("first"), Some("https://x/1")),
    ];
    let mut driver = Driver::new(lines(&["https://x/1"]), 50, feed, settings(300, "|", false));
    let first = driver.step(DriverEvent::Proceed);
    assert_eq!(
        report(&first),
        Some("orig_link=https://x/1: Already posted to Bluesky.".to_string())
    );
    let second = driver.step(DriverEvent::Proceed);
    assert_eq!(report(&second), None);
    let recorded = driver.step(posted());
    assert_eq!(
        report(&recorded),
        Some("orig_link=https://x/2: Posted to Bluesky: cid=cid, uri=at://post".to_string())
    );
    let end = driver.step(DriverEvent::Proceed);
    assert_eq!(report(&end), None);
}

#[test]
fn other_outcomes_are_reported() {
    let skipped =
        DriverAction::Item { decision: ItemDecision::Rejected { missing: MissingField::Body } };
    assert_eq!(report(&skipped), Some("Skipped an item without a description.".to_string()));
    let skipped =
        DriverAction::Item { decision: ItemDecision::Rejected { missing: MissingField::Link } };
    assert_eq!(report(&skipped), Some("Skipped an item without a link.".to_string()));
    let failed =
        DriverAction::AbortOnPosting { link: "l".to_string(), message: "refused".to_string() };
    assert_eq!(report(&failed), Some("orig_link=l: Failed to post to Bluesky: refused".to_string()));
    let broken = DriverAction::Item {
        decision: ItemDecision::Abort {
            link: "l".to_string(),
            error: MarkupParseError { kind: ParseErrorKind::Malformed, message: "bad".to_string() },
        },
    };
    assert_eq!(
        report(&broken),
        Some("orig_link=l: Failed to read the description: bad".to_string())
    );
    let ledger = loaded(&[], 10);
    let preview = DriverAction::Item {
        decision: decide(&item(Some("t"), Some("l")), &ledger, &settings(300, "|", true)),
    };
    assert_eq!(report(&preview), Some("orig_link=l: Dry run: t|l".to_string()));
    assert_eq!(report(&DriverAction::Finish), None);
    assert_eq!(report(&DriverAction::Unexpected), None);
    assert_eq!(report(&DriverAction::Rewrite { retained: vec![] }), None);
}

#[test]
fn image_left_out_for_its_rating_is_noted() {
    let other = with_media(item(Some("t"), Some("l")), "adult", "https://m/1.png");
    match image_note(&other) {
        Some(ImageNote::Withheld { url, rating }) => {
            assert_eq!(url, "https://m/1.png");
            assert_eq!(rating, "adult");
        }
        note => panic!("{:?}", note),
    }
    assert_eq!(
        describe_note(&image_note(&other).unwrap()),
        "Ignore a image might be sensitive: https://m/1.png, rated adult"
    );
}

#[test]
fn image_for_everyone_and_no_media_have_no_note() {
    let safe = with_media(item(Some("t"), Some("l")), "nonadult", "https://m/1.png");
    assert!(image_note(&safe).is_none());
    assert!(image_note(&item(Some("t"), Some("l"))).is_none());
}

#[test]
fn unusable_media_is_noted() {
    let mut broken = with_media(item(Some("t"), Some("l")), "nonadult", "https://m/1.png");
    broken.media.as_mut().unwrap().file_size = Some("12kb".to_string());
    match image_note(&broken) {
        Some(ImageNote::Unusable { problem: MediaProblem::UnreadableFileSize { text } }) => {
            assert_eq!(text, "12kb")
        }
        note => panic!("{:?}", note),
    }
    assert_eq!(
        describe_note(&image_note(&broken).unwrap()),
        "Failed to parse the 'fileSize' attribute of the media content: 12kb"
    );
    assert_eq!(postable_image(&broken), None);
}

#[test]
fn every_media_problem_has_its_line() {
    let line = |problem| describe_note(&ImageNote::Unusable { problem });
    assert_eq!(
        line(MediaProblem::MissingFileSize),
        "Not found the 'fileSize' attribute of the media content."
    );
    assert_eq!(
        line(MediaProblem::MissingType),
        "Not found the 'type' attribute of the media content."
    );
    assert_eq!(line(MediaProblem::MissingUrl), "Not found the 'url' attribute of the media content.");
    assert_eq!(
        line(MediaProblem::MissingRating),
        "Not found the 'rating' content of the media content."
    );
    assert_eq!(
        line(MediaProblem::MissingRatingValue),
        "Not found the 'value' of the media rating content."
    );
}

#[test]
fn decision_carries_the_note() {
    let ledger = loaded(&[], 10);
    let other = with_media(item(Some("t"), Some("l")), "adult", "https://m/1.png");
    match decide(&other, &ledger, &settings(300, "|", false)) {
        ItemDecision::Submit { image_url, image_note, .. } => {
            assert_eq!(image_url, None);
            assert!(matches!(image_note, Some(ImageNote::Withheld { .. })));
        }
        other => panic!("{:?}", other),
    }
    let safe = with_media(item(Some("t"), Some("l")), "nonadult", "https://m/1.png");
    match decide(&safe, &ledger, &settings(300, "|", true)) {
        ItemDecision::Preview { image_url, image_note, .. } => {
            assert_eq!(image_url, Some("https://m/1.png".to_string()));
            assert!(image_note.is_none());
        }
        other => panic!("{:?}", other),
    }
}
