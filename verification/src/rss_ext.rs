//! What a feed item says beyond the syndication format itself: its media.

use crate::text::same_text;
use vstd::prelude::*;
use vstd::string::*;

verus! {

/// A media file attached to a feed item.
#[derive(Debug)]
pub struct Media {
    pub url: String,
    pub file_size: usize,
    pub typ: String,
    pub rating: Rating,
}

/// For whom a media file is meant.
#[derive(Debug, Clone, Copy, PartialEq, Eq, Structural)]
pub enum Rating {
    NonAdult,
    Other,
}

/// The first `rating` element of a media content.
#[derive(Debug)]
pub struct MediaRating {
    /// The text inside the element.
    pub value: Option<String>,
}

/// The first `content` element of the `media` namespace of a feed item.
#[derive(Debug)]
pub struct MediaContent {
    /// The attribute `fileSize`.
    pub file_size: Option<String>,
    /// The attribute `type`.
    pub typ: Option<String>,
    /// The attribute `url`.
    pub url: Option<String>,
    /// The first child element named `rating`.
    pub rating: Option<MediaRating>,
}

/// A feed item, as far as posting reads it.
#[derive(Debug)]
pub struct FeedItem {
    /// The body, as HTML.
    pub description: Option<String>,
    /// The canonical link, which identifies the item.
    pub link: Option<String>,
    pub media: Option<MediaContent>,
}

/// A media file as character sequences.
pub struct MediaView {
    pub url: Seq<char>,
    pub file_size: usize,
    pub typ: Seq<char>,
    pub rating: Rating,
}

impl View for Media {
    type V = MediaView;

    open spec fn view(&self) -> MediaView {
        MediaView { url: self.url@, file_size: self.file_size, typ: self.typ@, rating: self.rating }
    }
}

/// A media content as character sequences; `rating` holds the value of the
/// first `rating` child where there is such a child.
pub struct MediaContentView {
    pub file_size: Option<Seq<char>>,
    pub typ: Option<Seq<char>>,
    pub url: Option<Seq<char>>,
    pub rating: Option<Option<Seq<char>>>,
}

/// The characters of an optional string.
pub open spec fn text_view(text: Option<String>) -> Option<Seq<char>> {
    match text {
        Some(s) => Some(s@),
        None => None,
    }
}

impl View for MediaContent {
    type V = MediaContentView;

    open spec fn view(&self) -> MediaContentView {
        MediaContentView {
            file_size: text_view(self.file_size),
            typ: text_view(self.typ),
            url: text_view(self.url),
            rating: match self.rating {
                Some(rating) => Some(text_view(rating.value)),
                None => None,
            },
        }
    }
}

/// A feed item as character sequences.
pub struct FeedItemView {
    pub description: Option<Seq<char>>,
    pub link: Option<Seq<char>>,
    pub media: Option<MediaContentView>,
}

impl View for FeedItem {
    type V = FeedItemView;

    open spec fn view(&self) -> FeedItemView {
        FeedItemView {
            description: text_view(self.description),
            link: text_view(self.link),
            media: match self.media {
                Some(content) => Some(content@),
                None => None,
            },
        }
    }
}

/// Whether `c` is one of the digits `0` to `9`.
pub open spec fn is_digit(c: char) -> bool {
    '0' <= c <= '9'
}

/// Whether `s` holds digits alone.
pub open spec fn all_digits(s: Seq<char>) -> bool {
    forall|i: int| 0 <= i < s.len() ==> is_digit(#[trigger] s[i])
}

/// The number that a run of digits writes in base ten.
pub open spec fn digits_value(s: Seq<char>) -> nat
    decreases s.len(),
{
    if s.len() == 0 {
        0
    } else {
        (digits_value(s.drop_last()) * 10 + (s.last() as u32 - '0' as u32)) as nat
    }
}

/// The digits of a size: what follows one leading `+`, or the whole.
pub open spec fn size_digits(s: Seq<char>) -> Seq<char> {
    if s.len() > 0 && s[0] == '+' {
        s.skip(1)
    } else {
        s
    }
}

/// The size that `s` writes: at least one digit after at most one leading
/// `+`, nothing else, and a number that a `usize` holds.
pub open spec fn parse_size(s: Seq<char>) -> Option<usize> {
    let digits = size_digits(s);
    if digits.len() > 0 && all_digits(digits) && digits_value(digits) <= usize::MAX {
        Some(digits_value(digits) as usize)
    } else {
        None
    }
}

/// The rating value that marks a file as meant for everyone.
pub open spec fn nonadult() -> Seq<char> {
    seq!['n', 'o', 'n', 'a', 'd', 'u', 'l', 't']
}

/// The rating that a value stands for.
pub open spec fn rating_of(value: Seq<char>) -> Rating {
    if value == nonadult() {
        Rating::NonAdult
    } else {
        Rating::Other
    }
}

/// The media file that a content describes, where it gives a size that can
/// be read, a type, an address and a rating with a value.
pub open spec fn media_of(content: MediaContentView) -> Option<MediaView> {
    if content.file_size is Some && parse_size(content.file_size->0) is Some && content.typ is Some
        && content.url is Some && content.rating is Some && content.rating->0 is Some {
        Some(
            MediaView {
                url: content.url->0,
                file_size: parse_size(content.file_size->0)->0,
                typ: content.typ->0,
                rating: rating_of(content.rating->0->0),
            },
        )
    } else {
        None
    }
}

/// The media file of a feed item, if it has one.
pub open spec fn item_media(item: FeedItemView) -> Option<MediaView> {
    match item.media {
        Some(content) => media_of(content),
        None => None,
    }
}

/// The number written by the first digits of a run is no greater than the
/// number written by all of them.
pub proof fn lemma_digits_grow(s: Seq<char>, k: int)
    requires
        0 <= k <= s.len(),
        all_digits(s),
    ensures
        digits_value(s.take(k)) <= digits_value(s),
    decreases s.len(),
{
    if k == s.len() {
        assert(s.take(k) =~= s);
    } else {
        assert(s.drop_last().take(k) =~= s.take(k));
        assert(all_digits(s.drop_last())) by {
            assert forall|i: int| 0 <= i < s.drop_last().len() implies is_digit(
                #[trigger] s.drop_last()[i],
            ) by {
                assert(s.drop_last()[i] == s[i]);
            }
        }
        lemma_digits_grow(s.drop_last(), k);
        assert(is_digit(s[s.len() - 1]));
    }
}

/// Reads a size: decimal digits after at most one leading `+`.
pub fn parse_file_size(text: &str) -> (size: Option<usize>)
    ensures
        size == parse_size(text@),
{
    let ghost digits = size_digits(text@);
    let ghost first: int = if text@.len() > 0 && text@[0] == '+' {
        1
    } else {
        0
    };
    let mut at_start = true;
    let mut any_digit = false;
    let mut value: usize = 0;
    proof {
        assert(digits =~= text@.skip(first));
        assert(digits.take(0) =~= Seq::empty());
    }
    for c in it: text.chars()
        invariant
            it.seq() == text@,
            digits == size_digits(text@),
            digits == text@.skip(first),
            first == if text@.len() > 0 && text@[0] == '+' {
                1int
            } else {
                0int
            },
            at_start == (it.index() == 0),
            any_digit == (it.index() > first),
            it.index() == 0 ==> value == 0,
            it.index() >= first ==> all_digits(digits.take(it.index() - first)) && value
                == digits_value(digits.take(it.index() - first)),
    {
        let sign = at_start && c == '+';
        at_start = false;
        if !sign {
            let ghost at = it.index() - first;
            let ghost upto = digits.take(at + 1);
            proof {
                assert(upto.drop_last() =~= digits.take(at));
                assert(upto.last() == c);
                assert(digits[at] == c);
            }
            if c < '0' || c > '9' {
                assert(!is_digit(digits[at]));
                return None;
            }
            let code = c as u32;
            assert(all_digits(upto)) by {
                assert forall|j: int| 0 <= j < upto.len() implies is_digit(#[trigger] upto[j]) by {
                    if j < upto.len() - 1 {
                        assert(upto[j] == digits.take(at)[j]);
                    }
                }
            }
            let digit = (code - 48) as usize;
            if value > (usize::MAX - digit) / 10 {
                proof {
                    assert(digits_value(upto) == value * 10 + digit);
                    if all_digits(digits) {
                        lemma_digits_grow(digits, at + 1);
                    }
                }
                return None;
            }
            value = value * 10 + digit;
            any_digit = true;
        }
    }
    proof {
        assert(digits.take(text@.len() - first) =~= digits);
    }
    if any_digit {
        Some(value)
    } else {
        None
    }
}

/// The media file that a feed item describes: `None` where the item has no
/// media content, or where the content lacks a size that can be read, a type,
/// an address, or a rating with a value.
pub fn get_media(item: &FeedItem) -> (media: Option<Media>)
    ensures
        match item_media(item@) {
            Some(expected) => media matches Some(found) && found@ == expected,
            None => media is None,
        },
{
    let content = match &item.media {
        Some(content) => content,
        None => return None,
    };
    let file_size = match &content.file_size {
        Some(text) => match parse_file_size(text.as_str()) {
            Some(size) => size,
            None => return None,
        },
        None => return None,
    };
    let typ = match &content.typ {
        Some(text) => text,
        None => return None,
    };
    let url = match &content.url {
        Some(text) => text,
        None => return None,
    };
    let value = match &content.rating {
        Some(rating) => match &rating.value {
            Some(text) => text,
            None => return None,
        },
        None => return None,
    };
    proof {
        reveal_strlit("nonadult");
        assert("nonadult"@ =~= nonadult());
    }
    let rating = if same_text(value.as_str(), "nonadult") {
        Rating::NonAdult
    } else {
        Rating::Other
    };
    Some(Media { url: url.clone(), typ: typ.clone(), file_size, rating })
}

/// What keeps a media content from being used.
#[derive(Debug)]
pub enum MediaProblem {
    /// There is no attribute `fileSize`.
    MissingFileSize,
    /// The attribute `fileSize`, which holds `text`, cannot be read as a size.
    UnreadableFileSize { text: String },
    /// There is no attribute `type`.
    MissingType,
    /// There is no attribute `url`.
    MissingUrl,
    /// There is no child element `rating`.
    MissingRating,
    /// The first child element `rating` is empty.
    MissingRatingValue,
}

/// A problem as plain values.
pub enum MediaProblemView {
    MissingFileSize,
    UnreadableFileSize { text: Seq<char> },
    MissingType,
    MissingUrl,
    MissingRating,
    MissingRatingValue,
}

impl View for MediaProblem {
    type V = MediaProblemView;

    open spec fn view(&self) -> MediaProblemView {
        match self {
            MediaProblem::MissingFileSize => MediaProblemView::MissingFileSize,
            MediaProblem::UnreadableFileSize { text } => MediaProblemView::UnreadableFileSize {
                text: text@,
            },
            MediaProblem::MissingType => MediaProblemView::MissingType,
            MediaProblem::MissingUrl => MediaProblemView::MissingUrl,
            MediaProblem::MissingRating => MediaProblemView::MissingRating,
            MediaProblem::MissingRatingValue => MediaProblemView::MissingRatingValue,
        }
    }
}

/// The view of a problem, if there is one.
pub open spec fn problem_view(problem: Option<MediaProblem>) -> Option<MediaProblemView> {
    match problem {
        Some(problem) => Some(problem@),
        None => None,
    }
}

/// The first thing that keeps a media content from being used, if anything
/// does: the size, the type, the address and the rating are looked at in
/// this order.
pub open spec fn media_problem_of(content: MediaContentView) -> Option<MediaProblemView> {
    if content.file_size is None {
        Some(MediaProblemView::MissingFileSize)
    } else if parse_size(content.file_size->0) is None {
        Some(MediaProblemView::UnreadableFileSize { text: content.file_size->0 })
    } else if content.typ is None {
        Some(MediaProblemView::MissingType)
    } else if content.url is None {
        Some(MediaProblemView::MissingUrl)
    } else if content.rating is None {
        Some(MediaProblemView::MissingRating)
    } else if content.rating->0 is None {
        Some(MediaProblemView::MissingRatingValue)
    } else {
        None
    }
}

/// What keeps the media content of an item from being used, if the item has
/// one and anything does.
pub open spec fn item_media_problem(item: FeedItemView) -> Option<MediaProblemView> {
    match item.media {
        Some(content) => media_problem_of(content),
        None => None,
    }
}

/// A media content has a problem exactly when it describes no media file.
pub proof fn lemma_problem_or_media(content: MediaContentView)
    ensures
        media_problem_of(content) is Some <==> media_of(content) is None,
{
}

/// Why an item that has a media content has no media file: the first thing
/// that is missing or cannot be read. There is a reason exactly when the item
/// has a media content and `get_media` gives nothing for it.
pub fn media_problem(item: &FeedItem) -> (problem: Option<MediaProblem>)
    ensures
        problem_view(problem) == item_media_problem(item@),
        problem is Some <==> item@.media is Some && item_media(item@) is None,
{
    let content = match &item.media {
        Some(content) => content,
        None => return None,
    };
    match &content.file_size {
        None => return Some(MediaProblem::MissingFileSize),
        Some(text) => {
            if parse_file_size(text.as_str()).is_none() {
                return Some(MediaProblem::UnreadableFileSize { text: text.clone() });
            }
        },
    }
    if content.typ.is_none() {
        return Some(MediaProblem::MissingType);
    }
    if content.url.is_none() {
        return Some(MediaProblem::MissingUrl);
    }
    match &content.rating {
        None => Some(MediaProblem::MissingRating),
        Some(rating) => {
            if rating.value.is_none() {
                Some(MediaProblem::MissingRatingValue)
            } else {
                None
            }
        },
    }
}

} // verus!
