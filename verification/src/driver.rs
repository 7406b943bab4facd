//! The decisions of a posting cycle.
//!
//! A cycle reads the ledger, goes through the items of a feed from the
//! oldest to the newest, and ends by handing out what the ledger is to hold
//! from then on. The driver decides; whoever runs it performs each action
//! and tells the driver how a submission went.

use crate::compose::{budget_for, compose, composed, reserve_budget, ComposedPost, PostView};
use crate::ledger::{ids_view, Ledger, LedgerPhase, LedgerView};
use crate::richtext::from_html_impl::document_segmentation;
use crate::richtext::{
    from_html, outcome_view, MarkupParseError, ParseErrorView, RichText, SegmentView,
};
use crate::rss_ext::{
    get_media, item_media, media_problem, media_problem_of, nonadult, text_view, FeedItem,
    FeedItemView, MediaProblem, MediaProblemView, Rating,
};
use crate::text::same_text;
use vstd::prelude::*;
use vstd::string::*;

verus! {

/// What a cycle is run with.
#[derive(Debug)]
pub struct Settings {
    /// How many characters a post may have in all.
    pub post_text_limit: usize,
    /// The text that stands between the body and the item's link.
    pub trailing_text: String,
    /// Whether posts are only composed: nothing is submitted, nothing is
    /// written.
    pub dry_run: bool,
}

/// Settings as plain values.
pub struct SettingsView {
    pub post_text_limit: nat,
    pub trailing_text: Seq<char>,
    pub dry_run: bool,
}

impl View for Settings {
    type V = SettingsView;

    open spec fn view(&self) -> SettingsView {
        SettingsView {
            post_text_limit: self.post_text_limit as nat,
            trailing_text: self.trailing_text@,
            dry_run: self.dry_run,
        }
    }
}

/// What an item must have and lacks.
#[derive(Clone, Copy, Debug, PartialEq, Eq, Structural)]
pub enum MissingField {
    Body,
    Link,
}

/// Why the post of an item that has a media content goes without an image.
#[derive(Debug)]
pub enum ImageNote {
    /// The media content cannot be used.
    Unusable { problem: MediaProblem },
    /// The image at `url` is left out: its rating, `rating`, is not the one
    /// that marks it as meant for everyone.
    Withheld { url: String, rating: String },
}

/// A note as plain values.
pub enum ImageNoteView {
    Unusable { problem: MediaProblemView },
    Withheld { url: Seq<char>, rating: Seq<char> },
}

impl View for ImageNote {
    type V = ImageNoteView;

    open spec fn view(&self) -> ImageNoteView {
        match self {
            ImageNote::Unusable { problem } => ImageNoteView::Unusable { problem: problem@ },
            ImageNote::Withheld { url, rating } => ImageNoteView::Withheld {
                url: url@,
                rating: rating@,
            },
        }
    }
}

/// The view of a note, if there is one.
pub open spec fn note_view(note: Option<ImageNote>) -> Option<ImageNoteView> {
    match note {
        Some(note) => Some(note@),
        None => None,
    }
}

/// What is to happen with one item.
#[derive(Debug)]
pub enum ItemDecision {
    /// The item lacks its body or its link: it is passed over.
    Rejected { missing: MissingField },
    /// The item's link is in the ledger: it is passed over.
    AlreadyPosted { link: String },
    /// A dry run: the post is composed and goes nowhere.
    Preview {
        link: String,
        post: ComposedPost,
        image_url: Option<String>,
        image_note: Option<ImageNote>,
    },
    /// The post is to be submitted.
    Submit {
        link: String,
        post: ComposedPost,
        image_url: Option<String>,
        image_note: Option<ImageNote>,
    },
    /// The body could not be segmented: the cycle ends here.
    Abort { link: String, error: MarkupParseError },
}

/// A decision as plain values.
pub enum ItemDecisionView {
    Rejected { missing: MissingField },
    AlreadyPosted { link: Seq<char> },
    Preview {
        link: Seq<char>,
        post: PostView,
        image_url: Option<Seq<char>>,
        image_note: Option<ImageNoteView>,
    },
    Submit {
        link: Seq<char>,
        post: PostView,
        image_url: Option<Seq<char>>,
        image_note: Option<ImageNoteView>,
    },
    Abort { link: Seq<char>, error: ParseErrorView },
}

impl View for ItemDecision {
    type V = ItemDecisionView;

    open spec fn view(&self) -> ItemDecisionView {
        match self {
            ItemDecision::Rejected { missing } => ItemDecisionView::Rejected { missing: *missing },
            ItemDecision::AlreadyPosted { link } => ItemDecisionView::AlreadyPosted { link: link@ },
            ItemDecision::Preview {
                link,
                post,
                image_url,
                image_note,
            } => ItemDecisionView::Preview {
                link: link@,
                post: post@,
                image_url: text_view(*image_url),
                image_note: note_view(*image_note),
            },
            ItemDecision::Submit {
                link,
                post,
                image_url,
                image_note,
            } => ItemDecisionView::Submit {
                link: link@,
                post: post@,
                image_url: text_view(*image_url),
                image_note: note_view(*image_note),
            },
            ItemDecision::Abort { link, error } => ItemDecisionView::Abort {
                link: link@,
                error: error@,
            },
        }
    }
}

/// The address of the image that goes with an item's post: that of its media
/// file, where the file is rated as meant for everyone.
pub open spec fn image_url_of(item: FeedItemView) -> Option<Seq<char>> {
    match item_media(item) {
        Some(media) => if media.rating == Rating::NonAdult {
            Some(media.url)
        } else {
            None
        },
        None => None,
    }
}

/// Why the post of an item goes without an image, where the item has a media
/// content: what keeps the content from being used, or else the rating that
/// is not the one for everyone.
pub open spec fn image_note_of(item: FeedItemView) -> Option<ImageNoteView> {
    match item.media {
        None => None,
        Some(content) => match media_problem_of(content) {
            Some(problem) => Some(ImageNoteView::Unusable { problem }),
            None => if content.rating->0->0 == nonadult() {
                None
            } else {
                Some(ImageNoteView::Withheld { url: content.url->0, rating: content.rating->0->0 })
            },
        },
    }
}

/// An item's post has an image, or a note that says why not, or the item has
/// no media content; never two of these.
pub proof fn lemma_image_or_note(item: FeedItemView)
    ensures
        item.media is None ==> image_url_of(item) is None && image_note_of(item) is None,
        item.media is Some ==> (image_url_of(item) is Some <==> image_note_of(item) is None),
{
}

/// What is said of a note in the output of a run.
pub open spec fn note_text(note: ImageNoteView) -> Seq<char> {
    match note {
        ImageNoteView::Unusable { problem } => match problem {
            MediaProblemView::MissingFileSize => {
                "Not found the 'fileSize' attribute of the media content."@
            },
            MediaProblemView::UnreadableFileSize { text } => {
                "Failed to parse the 'fileSize' attribute of the media content: "@ + text
            },
            MediaProblemView::MissingType => "Not found the 'type' attribute of the media content."@,
            MediaProblemView::MissingUrl => "Not found the 'url' attribute of the media content."@,
            MediaProblemView::MissingRating => {
                "Not found the 'rating' content of the media content."@
            },
            MediaProblemView::MissingRatingValue => {
                "Not found the 'value' of the media rating content."@
            },
        },
        ImageNoteView::Withheld { url, rating } => "Ignore a image might be sensitive: "@ + url
            + ", rated "@ + rating,
    }
}

/// The decision for an item that has a body and a link that the ledger does
/// not hold, given what the segmentation of its body gave.
pub open spec fn planned(
    item: FeedItemView,
    link: Seq<char>,
    segments: Result<Seq<SegmentView>, ParseErrorView>,
    settings: SettingsView,
) -> ItemDecisionView {
    match segments {
        Err(error) => ItemDecisionView::Abort { link, error },
        Ok(body) => {
            let budget = budget_for(settings.post_text_limit, settings.trailing_text, link);
            let post = composed(body, budget, settings.trailing_text, link);
            if settings.dry_run {
                ItemDecisionView::Preview {
                    link,
                    post,
                    image_url: image_url_of(item),
                    image_note: image_note_of(item),
                }
            } else {
                ItemDecisionView::Submit {
                    link,
                    post,
                    image_url: image_url_of(item),
                    image_note: image_note_of(item),
                }
            }
        },
    }
}

/// The decision for an item, given the identifiers that count as posted.
pub open spec fn item_decision(
    item: FeedItemView,
    seen: Set<Seq<char>>,
    settings: SettingsView,
) -> ItemDecisionView {
    if item.description is None {
        ItemDecisionView::Rejected { missing: MissingField::Body }
    } else if item.link is None {
        ItemDecisionView::Rejected { missing: MissingField::Link }
    } else if seen.contains(item.link->0) {
        ItemDecisionView::AlreadyPosted { link: item.link->0 }
    } else {
        planned(item, item.link->0, document_segmentation(item.description->0), settings)
    }
}

/// The address of the image that goes with an item's post, if any.
pub fn postable_image(item: &FeedItem) -> (url: Option<String>)
    ensures
        text_view(url) == image_url_of(item@),
{
    match get_media(item) {
        Some(media) => match media.rating {
            Rating::NonAdult => Some(media.url),
            Rating::Other => None,
        },
        None => None,
    }
}

/// Why the post of an item goes without an image, where the item has a media
/// content and the post has none.
pub fn image_note(item: &FeedItem) -> (note: Option<ImageNote>)
    ensures
        note_view(note) == image_note_of(item@),
        note is Some <==> item@.media is Some && image_url_of(item@) is None,
{
    let content = match &item.media {
        Some(content) => content,
        None => return None,
    };
    match media_problem(item) {
        Some(problem) => return Some(ImageNote::Unusable { problem }),
        None => {},
    }
    proof {
        reveal_strlit("nonadult");
        assert("nonadult"@ =~= nonadult());
    }
    match (&content.url, &content.rating) {
        (Some(url), Some(rating)) => match &rating.value {
            Some(value) => {
                if same_text(value.as_str(), "nonadult") {
                    None
                } else {
                    Some(ImageNote::Withheld { url: url.clone(), rating: value.clone() })
                }
            },
            None => None,
        },
        _ => None,
    }
}

/// What the output of a run says of a note.
pub fn describe_note(note: &ImageNote) -> (line: String)
    ensures
        line@ == note_text(note@),
{
    match note {
        ImageNote::Unusable { problem } => match problem {
            MediaProblem::MissingFileSize => {
                "Not found the 'fileSize' attribute of the media content.".to_owned()
            },
            MediaProblem::UnreadableFileSize { text } => {
                let mut line =
                    "Failed to parse the 'fileSize' attribute of the media content: ".to_owned();
                line.append(text.as_str());
                line
            },
            MediaProblem::MissingType => {
                "Not found the 'type' attribute of the media content.".to_owned()
            },
            MediaProblem::MissingUrl => {
                "Not found the 'url' attribute of the media content.".to_owned()
            },
            MediaProblem::MissingRating => {
                "Not found the 'rating' content of the media content.".to_owned()
            },
            MediaProblem::MissingRatingValue => {
                "Not found the 'value' of the media rating content.".to_owned()
            },
        },
        ImageNote::Withheld { url, rating } => {
            let mut line = "Ignore a image might be sensitive: ".to_owned();
            line.append(url.as_str());
            line.append(", rated ");
            line.append(rating.as_str());
            line
        },
    }
}

/// Decides on an item whose body was segmented: the error ends the cycle;
/// the segments are composed into a post, which is submitted or, in a dry
/// run, previewed.
pub fn plan_post(
    item: &FeedItem,
    link: &str,
    segments: Result<RichText, MarkupParseError>,
    settings: &Settings,
) -> (decision: ItemDecision)
    ensures
        decision@ == planned(item@, link@, outcome_view(segments), settings@),
{
    match segments {
        Err(error) => ItemDecision::Abort { link: link.to_owned(), error },
        Ok(body) => {
            let trailing = settings.trailing_text.as_str();
            let budget = reserve_budget(settings.post_text_limit, trailing, link);
            let post = compose(&body, budget, trailing, link);
            let image_url = postable_image(item);
            let image_note = image_note(item);
            if settings.dry_run {
                ItemDecision::Preview { link: link.to_owned(), post, image_url, image_note }
            } else {
                ItemDecision::Submit { link: link.to_owned(), post, image_url, image_note }
            }
        },
    }
}

/// Decides on an item: it is rejected where it lacks its body or, having a
/// body, its link; passed over where the ledger holds its link; and otherwise
/// segmented, composed and submitted.
pub fn decide(item: &FeedItem, ledger: &Ledger, settings: &Settings) -> (decision: ItemDecision)
    requires
        ledger.well_formed(),
    ensures
        decision@ == item_decision(item@, ledger@.seen(), settings@),
{
    let description = match &item.description {
        Some(text) => text,
        None => return ItemDecision::Rejected { missing: MissingField::Body },
    };
    let link = match &item.link {
        Some(text) => text,
        None => return ItemDecision::Rejected { missing: MissingField::Link },
    };
    if ledger.contains(link.as_str()) {
        return ItemDecision::AlreadyPosted { link: link.clone() };
    }
    let segments = from_html(description.as_str());
    plan_post(item, link.as_str(), segments, settings)
}

/// Where a driver stands.
#[derive(Clone, Copy, Debug, PartialEq, Eq, Structural)]
pub enum DriverPhase {
    /// The driver can go on to the next item.
    Ready,
    /// A post was handed out; the driver waits to hear how its submission
    /// went.
    Awaiting,
    /// Every item was gone through.
    Done,
    /// The cycle ended early.
    Aborted,
}

/// What the driver is told.
#[derive(Debug)]
pub enum DriverEvent {
    /// The last action was performed; the driver may go on.
    Proceed,
    /// The post was accepted, under these identifiers.
    Posted { cid: String, uri: String },
    /// The post was refused.
    PostFailed { message: String },
}

/// An event as plain values.
pub enum DriverEventView {
    Proceed,
    Posted { cid: Seq<char>, uri: Seq<char> },
    PostFailed { message: Seq<char> },
}

impl View for DriverEvent {
    type V = DriverEventView;

    open spec fn view(&self) -> DriverEventView {
        match self {
            DriverEvent::Proceed => DriverEventView::Proceed,
            DriverEvent::Posted { cid, uri } => DriverEventView::Posted { cid: cid@, uri: uri@ },
            DriverEvent::PostFailed { message } => DriverEventView::PostFailed {
                message: message@,
            },
        }
    }
}

/// What the driver asks for.
#[derive(Debug)]
pub enum DriverAction {
    /// Act on the decision for the next item: report it, and submit the post
    /// where the decision is to submit.
    Item { decision: ItemDecision },
    /// Append `link` to the ledger's backing store, durably, and report the
    /// post.
    Record { link: String, cid: String, uri: String },
    /// Replace the ledger's backing store by these lines; the cycle is over.
    Rewrite { retained: Vec<String> },
    /// The cycle of a dry run is over; nothing is written.
    Finish,
    /// Give up: the submission for `link` failed.
    AbortOnPosting { link: String, message: String },
    /// The event does not fit where the driver stands; nothing changed.
    Unexpected,
}

/// An action as plain values.
pub enum DriverActionView {
    Item { decision: ItemDecisionView },
    Record { link: Seq<char>, cid: Seq<char>, uri: Seq<char> },
    Rewrite { retained: Seq<Seq<char>> },
    Finish,
    AbortOnPosting { link: Seq<char>, message: Seq<char> },
    Unexpected,
}

impl View for DriverAction {
    type V = DriverActionView;

    open spec fn view(&self) -> DriverActionView {
        match self {
            DriverAction::Item { decision } => DriverActionView::Item { decision: decision@ },
            DriverAction::Record { link, cid, uri } => DriverActionView::Record {
                link: link@,
                cid: cid@,
                uri: uri@,
            },
            DriverAction::Rewrite { retained } => DriverActionView::Rewrite {
                retained: ids_view(retained@),
            },
            DriverAction::Finish => DriverActionView::Finish,
            DriverAction::AbortOnPosting { link, message } => DriverActionView::AbortOnPosting {
                link: link@,
                message: message@,
            },
            DriverAction::Unexpected => DriverActionView::Unexpected,
        }
    }
}

/// The views of a run of items, in order.
pub open spec fn items_view(items: Seq<FeedItem>) -> Seq<FeedItemView> {
    items.map_values(|item: FeedItem| item@)
}

/// A driver as plain values.
pub struct DriverView {
    pub ledger: LedgerView,
    pub settings: SettingsView,
    /// The items of the feed, the newest first.
    pub items: Seq<FeedItemView>,
    /// How many items are still to be gone through: the first `remaining`.
    pub remaining: nat,
    pub phase: DriverPhase,
    /// The link of the post whose submission the driver last asked for.
    pub awaiting: Seq<char>,
}

/// The driver at the start of a cycle, the ledger read.
pub open spec fn begun(
    lines: Seq<Seq<char>>,
    max_retained: nat,
    items: Seq<FeedItemView>,
    settings: SettingsView,
) -> DriverView {
    DriverView {
        ledger: LedgerView {
            phase: LedgerPhase::Loaded,
            max_retained,
            loaded: lines,
            recorded: Seq::empty(),
        },
        settings,
        items,
        remaining: items.len(),
        phase: DriverPhase::Ready,
        awaiting: Seq::empty(),
    }
}

/// The decision for the next item: the last of those that remain.
pub open spec fn current_decision(state: DriverView) -> ItemDecisionView
    recommends
        0 < state.remaining <= state.items.len(),
{
    item_decision(state.items[state.remaining - 1], state.ledger.seen(), state.settings)
}

/// The driver after an event. An event that does not fit the phase changes
/// nothing.
pub open spec fn next_state(state: DriverView, event: DriverEventView) -> DriverView {
    match (state.phase, event) {
        (DriverPhase::Ready, DriverEventView::Proceed) => if state.remaining == 0 {
            DriverView {
                phase: DriverPhase::Done,
                ledger: if state.settings.dry_run {
                    state.ledger
                } else {
                    LedgerView { phase: LedgerPhase::Rewritten, ..state.ledger }
                },
                ..state
            }
        } else {
            let moved = DriverView { remaining: (state.remaining - 1) as nat, ..state };
            match current_decision(state) {
                ItemDecisionView::Submit { link, .. } => DriverView {
                    phase: DriverPhase::Awaiting,
                    awaiting: link,
                    ..moved
                },
                ItemDecisionView::Abort { .. } => DriverView {
                    phase: DriverPhase::Aborted,
                    ..moved
                },
                _ => moved,
            }
        },
        (DriverPhase::Awaiting, DriverEventView::Posted { .. }) => DriverView {
            phase: DriverPhase::Ready,
            ledger: LedgerView {
                phase: LedgerPhase::Appending,
                recorded: state.ledger.recorded.push(state.awaiting),
                ..state.ledger
            },
            ..state
        },
        (DriverPhase::Awaiting, DriverEventView::PostFailed { .. }) => DriverView {
            phase: DriverPhase::Aborted,
            ..state
        },
        _ => state,
    }
}

/// What the driver asks for on an event.
pub open spec fn next_action(state: DriverView, event: DriverEventView) -> DriverActionView {
    match (state.phase, event) {
        (DriverPhase::Ready, DriverEventView::Proceed) => if state.remaining == 0 {
            if state.settings.dry_run {
                DriverActionView::Finish
            } else {
                DriverActionView::Rewrite { retained: state.ledger.retained() }
            }
        } else {
            DriverActionView::Item { decision: current_decision(state) }
        },
        (DriverPhase::Awaiting, DriverEventView::Posted { cid, uri }) => DriverActionView::Record {
            link: state.awaiting,
            cid,
            uri,
        },
        (
            DriverPhase::Awaiting,
            DriverEventView::PostFailed { message },
        ) => DriverActionView::AbortOnPosting { link: state.awaiting, message },
        _ => DriverActionView::Unexpected,
    }
}

/// The driver of one cycle.
pub struct Driver {
    ledger: Ledger,
    settings: Settings,
    items: Vec<FeedItem>,
    remaining: usize,
    phase: DriverPhase,
    awaiting: String,
}

impl View for Driver {
    type V = DriverView;

    closed spec fn view(&self) -> DriverView {
        DriverView {
            ledger: self.ledger@,
            settings: self.settings@,
            items: items_view(self.items@),
            remaining: self.remaining as nat,
            phase: self.phase,
            awaiting: self.awaiting@,
        }
    }
}

impl Driver {
    /// Whether the driver's parts agree with each other.
    pub closed spec fn well_formed(&self) -> bool {
        &&& self.ledger.well_formed()
        &&& self.remaining <= self.items.len()
        &&& (self.phase == DriverPhase::Ready || self.phase == DriverPhase::Awaiting)
            ==> self.ledger@.is_open()
    }

    /// Starts a cycle: reads the ledger from the lines of its backing store
    /// and takes the items of the feed, the newest first.
    pub fn new(
        lines: Vec<String>,
        max_retained: usize,
        items: Vec<FeedItem>,
        settings: Settings,
    ) -> (driver: Driver)
        ensures
            driver.well_formed(),
            driver@ == begun(
                ids_view(lines@),
                max_retained as nat,
                items_view(items@),
                settings@,
            ),
    {
        let mut ledger = Ledger::new(max_retained);
        ledger.load(lines);
        let remaining = items.len();
        Driver {
            ledger,
            settings,
            items,
            remaining,
            phase: DriverPhase::Ready,
            awaiting: String::new(),
        }
    }

    /// Where the driver stands.
    pub fn phase(&self) -> (phase: DriverPhase)
        ensures
            phase == self@.phase,
    {
        self.phase
    }

    /// How many items are still to be gone through.
    pub fn remaining(&self) -> (n: usize)
        ensures
            n == self@.remaining,
    {
        self.remaining
    }

    /// Takes an event and says what is to be done next. When told to
    /// proceed, a ready driver decides on the oldest item that remains, or,
    /// with none left, ends the cycle and hands out the lines that the
    /// ledger keeps. When told how a submission went, a waiting driver
    /// records the link of an accepted post and gives up on a refused one.
    pub fn step(&mut self, event: DriverEvent) -> (action: DriverAction)
        requires
            old(self).well_formed(),
        ensures
            final(self).well_formed(),
            final(self)@ == next_state(old(self)@, event@),
            action@ == next_action(old(self)@, event@),
    {
        match self.phase {
            DriverPhase::Ready => match event {
                DriverEvent::Proceed => {
                    if self.remaining == 0 {
                        self.phase = DriverPhase::Done;
                        if self.settings.dry_run {
                            DriverAction::Finish
                        } else {
                            let retained = self.ledger.rewrite();
                            DriverAction::Rewrite { retained }
                        }
                    } else {
                        self.remaining -= 1;
                        let decision = decide(
                            &self.items[self.remaining],
                            &self.ledger,
                            &self.settings,
                        );
                        match &decision {
                            ItemDecision::Submit { link, .. } => {
                                self.awaiting = link.clone();
                                self.phase = DriverPhase::Awaiting;
                            },
                            ItemDecision::Abort { .. } => {
                                self.phase = DriverPhase::Aborted;
                            },
                            _ => {},
                        }
                        DriverAction::Item { decision }
                    }
                },
                _ => DriverAction::Unexpected,
            },
            DriverPhase::Awaiting => match event {
                DriverEvent::Posted { cid, uri } => {
                    self.ledger.record(self.awaiting.clone());
                    self.phase = DriverPhase::Ready;
                    DriverAction::Record { link: self.awaiting.clone(), cid, uri }
                },
                DriverEvent::PostFailed { message } => {
                    self.phase = DriverPhase::Aborted;
                    DriverAction::AbortOnPosting { link: self.awaiting.clone(), message }
                },
                DriverEvent::Proceed => DriverAction::Unexpected,
            },
            _ => DriverAction::Unexpected,
        }
    }
}

/// What is said of an action in the output of a run, if anything: a line
/// for each item that was passed over, previewed, posted or given up on.
pub open spec fn report_of(action: DriverActionView) -> Option<Seq<char>> {
    match action {
        DriverActionView::Item { decision } => match decision {
            ItemDecisionView::Rejected { missing } => Some(
                match missing {
                    MissingField::Body => "Skipped an item without a description."@,
                    MissingField::Link => "Skipped an item without a link."@,
                },
            ),
            ItemDecisionView::AlreadyPosted { link } => Some(
                "orig_link="@ + link + ": Already posted to Bluesky."@,
            ),
            ItemDecisionView::Preview { link, post, .. } => Some(
                "orig_link="@ + link + ": Dry run: "@ + post.text,
            ),
            ItemDecisionView::Submit { .. } => None,
            ItemDecisionView::Abort { link, error } => Some(
                "orig_link="@ + link + ": Failed to read the description: "@ + error.message,
            ),
        },
        DriverActionView::Record { link, cid, uri } => Some(
            "orig_link="@ + link + ": Posted to Bluesky: cid="@ + cid + ", uri="@ + uri,
        ),
        DriverActionView::AbortOnPosting { link, message } => Some(
            "orig_link="@ + link + ": Failed to post to Bluesky: "@ + message,
        ),
        _ => None,
    }
}

/// The line for an item, which starts with the item's link.
fn item_line(link: &str, outcome: &str, detail: &str) -> (line: String)
    ensures
        line@ == "orig_link="@ + link@ + outcome@ + detail@,
{
    let mut line = "orig_link=".to_owned();
    line.append(link);
    line.append(outcome);
    line.append(detail);
    line
}

/// The line that the output of a run holds for an action, if any.
pub fn report(action: &DriverAction) -> (line: Option<String>)
    ensures
        text_view(line) == report_of(action@),
{
    match action {
        DriverAction::Item { decision } => match decision {
            ItemDecision::Rejected { missing } => match missing {
                MissingField::Body => Some("Skipped an item without a description.".to_owned()),
                MissingField::Link => Some("Skipped an item without a link.".to_owned()),
            },
            ItemDecision::AlreadyPosted { link } => {
                let line = item_line(link.as_str(), ": Already posted to Bluesky.", "");
                proof {
                    reveal_strlit("");
                    assert(line@ =~= "orig_link="@ + link@ + ": Already posted to Bluesky."@);
                }
                Some(line)
            },
            ItemDecision::Preview { link, post, .. } => Some(
                item_line(link.as_str(), ": Dry run: ", post.text.as_str()),
            ),
            ItemDecision::Submit { .. } => None,
            ItemDecision::Abort { link, error } => Some(
                item_line(
                    link.as_str(),
                    ": Failed to read the description: ",
                    error.message.as_str(),
                ),
            ),
        },
        DriverAction::Record { link, cid, uri } => {
            let mut line = item_line(link.as_str(), ": Posted to Bluesky: cid=", cid.as_str());
            line.append(", uri=");
            line.append(uri.as_str());
            Some(line)
        },
        DriverAction::AbortOnPosting { link, message } => Some(
            item_line(link.as_str(), ": Failed to post to Bluesky: ", message.as_str()),
        ),
        _ => None,
    }
}

} // verus!
