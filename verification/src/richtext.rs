//! Rich text: the body of a feed item as plain text and links.

use vstd::prelude::*;

pub mod from_html_impl;
pub mod laws;

verus! {

/// One piece of a body: text as it stands, or text that links somewhere.
#[derive(Debug)]
pub enum RichTextSegment {
    PlainText { text: String },
    Link { text: String, link: String },
}

/// What a segment holds, as character sequences.
pub enum SegmentView {
    PlainText { text: Seq<char> },
    Link { text: Seq<char>, link: Seq<char> },
}

impl SegmentView {
    /// The characters that a reader sees.
    pub open spec fn display(self) -> Seq<char> {
        match self {
            SegmentView::PlainText { text } => text,
            SegmentView::Link { text, .. } => text,
        }
    }
}

impl View for RichTextSegment {
    type V = SegmentView;

    open spec fn view(&self) -> SegmentView {
        match self {
            RichTextSegment::PlainText { text } => SegmentView::PlainText { text: text@ },
            RichTextSegment::Link { text, link } => SegmentView::Link { text: text@, link: link@ },
        }
    }
}

/// The document broke the rules of the markup; no segments are given for it.
#[derive(Debug)]
pub struct MarkupParseError {
    pub kind: ParseErrorKind,
    /// What is said of the error: for a malformed document, what the
    /// tokenizer said of the first place where it broke the rules.
    pub message: String,
}

/// Why a document has no segments.
#[derive(Clone, Copy, Debug, PartialEq, Eq, Structural)]
pub enum ParseErrorKind {
    /// The document has more bytes than the tokenizer takes.
    TooLong,
    /// The document breaks the rules of the markup.
    Malformed,
}

/// An error as plain values.
pub struct ParseErrorView {
    pub kind: ParseErrorKind,
    pub message: Seq<char>,
}

impl View for MarkupParseError {
    type V = ParseErrorView;

    open spec fn view(&self) -> ParseErrorView {
        ParseErrorView { kind: self.kind, message: self.message@ }
    }
}

/// The error of a document that is too long.
pub open spec fn too_long() -> ParseErrorView {
    ParseErrorView { kind: ParseErrorKind::TooLong, message: "The document is too long."@ }
}

/// The error of a document of which the tokenizer said `message`.
pub open spec fn malformed(message: Seq<char>) -> ParseErrorView {
    ParseErrorView { kind: ParseErrorKind::Malformed, message }
}

/// A body in document order.
pub type RichText = Vec<RichTextSegment>;

/// The views of a run of segments, in order.
pub open spec fn segments_view(segments: Seq<RichTextSegment>) -> Seq<SegmentView> {
    segments.map_values(|s: RichTextSegment| s@)
}

/// What a segmentation gave, as plain values: the segments, or the error.
pub open spec fn outcome_view(result: Result<RichText, MarkupParseError>) -> Result<
    Seq<SegmentView>,
    ParseErrorView,
> {
    match result {
        Ok(segments) => Ok(segments_view(segments@)),
        Err(error) => Err(error@),
    }
}

/// Splits an HTML fragment into plain text and links, in document order.
/// A fragment of more than `MAX_DOCUMENT_BYTES` bytes is too long, and only
/// such a fragment is. Any other is tokenized by `html5ever`; the segments
/// are those of the walk over its tokens, and a parse error among the tokens
/// is the error of the whole.
pub fn from_html(content: &str) -> (result: Result<RichText, MarkupParseError>)
    ensures
        outcome_view(result) == from_html_impl::document_segmentation(content@),
        result matches Ok(segments) ==> laws::plain_text_is_filled(segments_view(segments@)),
{
    from_html_impl::from_html(content)
}

} // verus!
