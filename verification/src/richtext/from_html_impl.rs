//! The walk over a document's tokens that gathers text and links.
//!
//! The walk keeps a depth, which goes up by one at every start tag and down
//! by one at every end tag, and at most one piece of text that is still
//! growing: plain text, or the text of a link together with the link's target
//! and the depth at which the link was opened.

use crate::markup::{
    attributes_view, html_tokens, tokenize, tokens_view, MarkupToken, MarkupTokenView,
    TagAttribute, TagAttributeView, MAX_DOCUMENT_BYTES,
};
use crate::richtext::laws::{lemma_plain_text_is_filled, plain_text_is_filled};
use crate::richtext::{
    malformed, outcome_view, segments_view, too_long, MarkupParseError, ParseErrorKind,
    ParseErrorView, RichText, RichTextSegment, SegmentView,
};
use crate::text::{byte_len, same_text, utf8_len};
use vstd::prelude::*;
use vstd::string::*;

verus! {

/// The piece of text that is growing, if any.
pub enum ProcessStateView {
    NotProcessed,
    ProcessingPlainText { text_continue: Seq<char> },
    ProcessingLink { link_tag_depth: int, link: Seq<char>, text_continue: Seq<char> },
}

/// The walk between two tokens.
pub struct SinkView {
    /// The segments that are complete.
    pub text: Seq<SegmentView>,
    /// Start tags met so far, less end tags.
    pub tag_depth: int,
    pub state: ProcessStateView,
}

/// The name of the anchor element.
pub open spec fn anchor_name() -> Seq<char> {
    seq!['a']
}

/// The name of the line-break element.
pub open spec fn line_break_name() -> Seq<char> {
    seq!['b', 'r']
}

/// The name of the attribute that holds a link's target.
pub open spec fn href_name() -> Seq<char> {
    seq!['h', 'r', 'e', 'f']
}

/// The walk before the first token.
pub open spec fn initial_sink() -> SinkView {
    SinkView { text: Seq::empty(), tag_depth: 0, state: ProcessStateView::NotProcessed }
}

/// Character data goes to the piece that is growing; where none is, it
/// starts a piece of plain text. No characters change nothing.
pub open spec fn after_chars(state: ProcessStateView, chars: Seq<char>) -> ProcessStateView {
    if chars.len() == 0 {
        state
    } else {
        match state {
            ProcessStateView::NotProcessed => ProcessStateView::ProcessingPlainText {
                text_continue: chars,
            },
            ProcessStateView::ProcessingPlainText { text_continue } => {
                ProcessStateView::ProcessingPlainText { text_continue: text_continue + chars }
            },
            ProcessStateView::ProcessingLink { link_tag_depth, link, text_continue } => {
                ProcessStateView::ProcessingLink {
                    link_tag_depth,
                    link,
                    text_continue: text_continue + chars,
                }
            },
        }
    }
}

/// The walk after one character of character data.
pub open spec fn after_char(sink: SinkView, c: char) -> SinkView {
    SinkView { state: after_chars(sink.state, seq![c]), ..sink }
}

/// The walk after a run of character data.
pub open spec fn after_text(sink: SinkView, chars: Seq<char>) -> SinkView {
    SinkView { state: after_chars(sink.state, chars), ..sink }
}

/// The end of an anchor element completes the piece that is growing. The
/// text of a link becomes a segment only where the depth is no greater than
/// the depth at which the link was opened; otherwise it is dropped.
pub open spec fn after_end_process(sink: SinkView) -> SinkView {
    match sink.state {
        ProcessStateView::NotProcessed => sink,
        ProcessStateView::ProcessingPlainText { text_continue } => SinkView {
            text: sink.text.push(SegmentView::PlainText { text: text_continue }),
            state: ProcessStateView::NotProcessed,
            ..sink
        },
        ProcessStateView::ProcessingLink { link_tag_depth, link, text_continue } => SinkView {
            text: if sink.tag_depth <= link_tag_depth {
                sink.text.push(SegmentView::Link { text: text_continue, link })
            } else {
                sink.text
            },
            state: ProcessStateView::NotProcessed,
            ..sink
        },
    }
}

/// The end of the document completes the piece that is growing, plain text
/// or link, whatever the depth.
pub open spec fn after_finish(sink: SinkView) -> SinkView {
    match sink.state {
        ProcessStateView::NotProcessed => sink,
        ProcessStateView::ProcessingPlainText { text_continue } => SinkView {
            text: sink.text.push(SegmentView::PlainText { text: text_continue }),
            state: ProcessStateView::NotProcessed,
            ..sink
        },
        ProcessStateView::ProcessingLink { link, text_continue, .. } => SinkView {
            text: sink.text.push(SegmentView::Link { text: text_continue, link }),
            state: ProcessStateView::NotProcessed,
            ..sink
        },
    }
}

/// The value of the last attribute named `href`, if there is one.
pub open spec fn href_of(attrs: Seq<TagAttributeView>) -> Option<Seq<char>>
    decreases attrs.len(),
{
    if attrs.len() == 0 {
        None
    } else if attrs.last().name == href_name() {
        Some(attrs.last().value)
    } else {
        href_of(attrs.drop_last())
    }
}

/// The start of an anchor element with a target, outside any link,
/// completes the plain text that is growing and opens a link at the current
/// depth. Without a target, or inside a link, it changes nothing.
pub open spec fn after_start_link(sink: SinkView, attrs: Seq<TagAttributeView>) -> SinkView {
    match href_of(attrs) {
        None => sink,
        Some(link) => if sink.state is ProcessingLink {
            sink
        } else {
            SinkView {
                state: ProcessStateView::ProcessingLink {
                    link_tag_depth: sink.tag_depth,
                    link,
                    text_continue: Seq::empty(),
                },
                ..after_end_process(sink)
            }
        },
    }
}

/// A start tag: a line break is a newline in the character data, an anchor
/// may open a link, and the depth goes up by one.
pub open spec fn after_start_tag(
    sink: SinkView,
    name: Seq<char>,
    attrs: Seq<TagAttributeView>,
) -> SinkView {
    let inner = if name == line_break_name() {
        after_char(sink, '\n')
    } else if name == anchor_name() {
        after_start_link(sink, attrs)
    } else {
        sink
    };
    SinkView { tag_depth: inner.tag_depth + 1, ..inner }
}

/// An end tag: the depth goes down by one, and the end of an anchor
/// completes the piece that is growing.
pub open spec fn after_end_tag(sink: SinkView, name: Seq<char>) -> SinkView {
    let lower = SinkView { tag_depth: sink.tag_depth - 1, ..sink };
    if name == anchor_name() {
        after_end_process(lower)
    } else {
        lower
    }
}

/// The walk after one more token. A self-closing start tag counts as a start
/// tag and an end tag of the same name. A parse error changes nothing here:
/// it ends the segmentation as a whole.
pub open spec fn after_token(sink: SinkView, token: MarkupTokenView) -> SinkView {
    match token {
        MarkupTokenView::Characters { text } => after_text(sink, text),
        MarkupTokenView::NullCharacter => after_char(sink, '\0'),
        MarkupTokenView::StartTag { name, attrs, self_closing } => {
            let started = after_start_tag(sink, name, attrs);
            if self_closing {
                after_end_tag(started, name)
            } else {
                started
            }
        },
        MarkupTokenView::EndTag { name } => after_end_tag(sink, name),
        MarkupTokenView::Doctype => sink,
        MarkupTokenView::Comment => sink,
        MarkupTokenView::EndOfInput => after_finish(sink),
        MarkupTokenView::ParseError { .. } => sink,
    }
}

/// The walk after a run of tokens.
pub open spec fn after_tokens(sink: SinkView, tokens: Seq<MarkupTokenView>) -> SinkView
    decreases tokens.len(),
{
    if tokens.len() == 0 {
        sink
    } else {
        after_token(after_tokens(sink, tokens.drop_last()), tokens.last())
    }
}

/// The message of the first parse error among the tokens, if there is one.
pub open spec fn first_error(tokens: Seq<MarkupTokenView>) -> Option<Seq<char>>
    decreases tokens.len(),
{
    if tokens.len() == 0 {
        None
    } else {
        match first_error(tokens.drop_last()) {
            Some(message) => Some(message),
            None => match tokens.last() {
                MarkupTokenView::ParseError { message } => Some(message),
                _ => None,
            },
        }
    }
}

/// The segments of a document with the given tokens: none where a token is a
/// parse error, the first of which is then the error; otherwise what the walk
/// over all tokens has gathered once the end of the document has completed
/// the piece that was growing.
pub open spec fn segmentation(tokens: Seq<MarkupTokenView>) -> Result<
    Seq<SegmentView>,
    ParseErrorView,
> {
    match first_error(tokens) {
        Some(message) => Err(malformed(message)),
        None => Ok(after_finish(after_tokens(initial_sink(), tokens)).text),
    }
}

/// The segments of a document: none, for its length, where it has more
/// bytes than the tokenizer takes; otherwise those of its tokens.
pub open spec fn document_segmentation(content: Seq<char>) -> Result<
    Seq<SegmentView>,
    ParseErrorView,
> {
    if byte_len(content) > MAX_DOCUMENT_BYTES {
        Err(too_long())
    } else {
        segmentation(html_tokens(content))
    }
}

/// The piece of text that is growing, if any.
enum ProcessState {
    NotProcessed,
    ProcessingPlainText { text_continue: String },
    ProcessingLink { link_tag_depth: i128, link: String, text_continue: String },
}

impl View for ProcessState {
    type V = ProcessStateView;

    closed spec fn view(&self) -> ProcessStateView {
        match self {
            ProcessState::NotProcessed => ProcessStateView::NotProcessed,
            ProcessState::ProcessingPlainText { text_continue } => {
                ProcessStateView::ProcessingPlainText { text_continue: text_continue@ }
            },
            ProcessState::ProcessingLink { link_tag_depth, link, text_continue } => {
                ProcessStateView::ProcessingLink {
                    link_tag_depth: *link_tag_depth as int,
                    link: link@,
                    text_continue: text_continue@,
                }
            },
        }
    }
}

/// The walk over the tokens of one document.
struct Html2RichTextSink {
    /// The segments that are complete.
    text: RichText,
    /// Start tags met so far, less end tags. An end tag without its start
    /// tag lowers the depth like any other, so the depth can be negative; it
    /// changes by one at most with each token, which a machine integer of
    /// this width holds for every run of tokens that memory holds.
    tag_depth: i128,
    state: ProcessState,
}

impl View for Html2RichTextSink {
    type V = SinkView;

    closed spec fn view(&self) -> SinkView {
        SinkView {
            text: segments_view(self.text@),
            tag_depth: self.tag_depth as int,
            state: self.state@,
        }
    }
}

/// The value of the last attribute named `href`, if there is one.
fn find_href(attrs: &Vec<TagAttribute>) -> (href: Option<String>)
    ensures
        href.is_some() == href_of(attributes_view(attrs@)).is_some(),
        href matches Some(link) ==> href_of(attributes_view(attrs@)) == Some(link@),
{
    let ghost all = attributes_view(attrs@);
    let mut i: usize = attrs.len();
    proof {
        reveal_strlit("href");
        assert("href"@ =~= href_name());
        assert(all.take(i as int) =~= all);
    }
    while i > 0
        invariant
            all == attributes_view(attrs@),
            i <= attrs.len(),
            "href"@ == href_name(),
            href_of(all) == href_of(all.take(i as int)),
        decreases i,
    {
        proof {
            assert(all.take(i as int).drop_last() =~= all.take(i - 1));
            assert(all.take(i as int).last() == attrs@[i - 1]@);
        }
        i -= 1;
        if same_text(attrs[i].name.as_str(), "href") {
            return Some(attrs[i].value.clone());
        }
    }
    None
}

impl Html2RichTextSink {
    /// The walk before the first token.
    fn new() -> (sink: Html2RichTextSink)
        ensures
            sink@ == initial_sink(),
    {
        let sink = Html2RichTextSink {
            text: Vec::new(),
            tag_depth: 0,
            state: ProcessState::NotProcessed,
        };
        assert(sink@.text =~= Seq::empty());
        sink
    }

    /// One character of character data.
    fn process_plain_char(&mut self, c: char)
        ensures
            final(self)@ == after_char(old(self)@, c),
    {
        match &mut self.state {
            ProcessState::NotProcessed => {
                let mut text_continue = String::new();
                text_continue.push(c);
                assert(text_continue@ =~= seq![c]);
                self.state = ProcessState::ProcessingPlainText { text_continue };
            },
            ProcessState::ProcessingPlainText { text_continue } => {
                text_continue.push(c);
                assert(text_continue@ =~= old(self).state@->ProcessingPlainText_text_continue + seq![c]);
            },
            ProcessState::ProcessingLink { text_continue, .. } => {
                text_continue.push(c);
                assert(text_continue@ =~= old(self).state@->ProcessingLink_text_continue + seq![c]);
            },
        }
    }

    /// A run of character data.
    fn process_plain_text(&mut self, chars: &str)
        ensures
            final(self)@ == after_text(old(self)@, chars@),
    {
        if chars.unicode_len() == 0 {
            return ;
        }
        match &mut self.state {
            ProcessState::NotProcessed => {
                self.state = ProcessState::ProcessingPlainText { text_continue: chars.to_owned() };
            },
            ProcessState::ProcessingPlainText { text_continue } => {
                text_continue.append(chars);
            },
            ProcessState::ProcessingLink { text_continue, .. } => {
                text_continue.append(chars);
            },
        }
    }

    /// Completes the piece that is growing, at the end of an anchor element.
    fn end_process(&mut self)
        ensures
            final(self)@ == after_end_process(old(self)@),
    {
        let mut state = ProcessState::NotProcessed;
        core::mem::swap(&mut self.state, &mut state);
        match state {
            ProcessState::NotProcessed => {},
            ProcessState::ProcessingPlainText { text_continue } => {
                let segment = RichTextSegment::PlainText { text: text_continue };
                assert(segments_view(self.text@.push(segment)) =~= segments_view(self.text@).push(
                    segment@,
                ));
                self.text.push(segment);
            },
            ProcessState::ProcessingLink { text_continue, link, link_tag_depth } => {
                if self.tag_depth <= link_tag_depth {
                    let segment = RichTextSegment::Link { text: text_continue, link };
                    assert(segments_view(self.text@.push(segment)) =~= segments_view(
                        self.text@,
                    ).push(segment@));
                    self.text.push(segment);
                }
            },
        }
    }

    /// Completes the piece that is growing, at the end of the document.
    fn finish(&mut self)
        ensures
            final(self)@ == after_finish(old(self)@),
    {
        let mut state = ProcessState::NotProcessed;
        core::mem::swap(&mut self.state, &mut state);
        match state {
            ProcessState::NotProcessed => {},
            ProcessState::ProcessingPlainText { text_continue } => {
                let segment = RichTextSegment::PlainText { text: text_continue };
                assert(segments_view(self.text@.push(segment)) =~= segments_view(self.text@).push(
                    segment@,
                ));
                self.text.push(segment);
            },
            ProcessState::ProcessingLink { text_continue, link, .. } => {
                let segment = RichTextSegment::Link { text: text_continue, link };
                assert(segments_view(self.text@.push(segment)) =~= segments_view(self.text@).push(
                    segment@,
                ));
                self.text.push(segment);
            },
        }
    }

    /// The start tag of an anchor element.
    fn process_start_link(&mut self, attrs: &Vec<TagAttribute>)
        ensures
            final(self)@ == after_start_link(old(self)@, attributes_view(attrs@)),
    {
        match find_href(attrs) {
            None => {},
            Some(link) => {
                match self.state {
                    ProcessState::ProcessingLink { .. } => {},
                    _ => {
                        self.end_process();
                        self.state =
                        ProcessState::ProcessingLink {
                            link,
                            link_tag_depth: self.tag_depth,
                            text_continue: String::new(),
                        };
                    },
                }
            },
        }
    }

    /// A start tag.
    fn process_start_tag(&mut self, name: &str, attrs: &Vec<TagAttribute>)
        requires
            old(self)@.tag_depth < i128::MAX,
        ensures
            final(self)@ == after_start_tag(old(self)@, name@, attributes_view(attrs@)),
    {
        proof {
            reveal_strlit("br");
            reveal_strlit("a");
            assert("br"@ =~= line_break_name());
            assert("a"@ =~= anchor_name());
        }
        if same_text(name, "br") {
            self.process_plain_char('\n');
        } else if same_text(name, "a") {
            self.process_start_link(attrs);
        }
        self.tag_depth += 1;
    }

    /// An end tag.
    fn process_end_tag(&mut self, name: &str)
        requires
            old(self)@.tag_depth > i128::MIN,
        ensures
            final(self)@ == after_end_tag(old(self)@, name@),
    {
        proof {
            reveal_strlit("a");
            assert("a"@ =~= anchor_name());
        }
        self.tag_depth -= 1;
        if same_text(name, "a") {
            self.end_process();
        }
    }

    /// One token that is no parse error.
    fn process_token(&mut self, token: &MarkupToken)
        requires
            i128::MIN < old(self)@.tag_depth < i128::MAX,
        ensures
            final(self)@ == after_token(old(self)@, token@),
            old(self)@.tag_depth - 1 <= final(self)@.tag_depth <= old(self)@.tag_depth + 1,
    {
        match token {
            MarkupToken::Characters { text } => {
                self.process_plain_text(text.as_str());
            },
            MarkupToken::NullCharacter => {
                self.process_plain_char('\0');
            },
            MarkupToken::StartTag { name, attrs, self_closing } => {
                self.process_start_tag(name.as_str(), attrs);
                if *self_closing {
                    self.process_end_tag(name.as_str());
                }
            },
            MarkupToken::EndTag { name } => {
                self.process_end_tag(name.as_str());
            },
            MarkupToken::Doctype => {},
            MarkupToken::Comment => {},
            MarkupToken::EndOfInput => {
                self.finish();
            },
            MarkupToken::ParseError { .. } => {},
        }
    }
}

/// A parse error among the first tokens is the first parse error of all.
pub proof fn lemma_first_error_stays(tokens: Seq<MarkupTokenView>, k: int)
    requires
        0 <= k <= tokens.len(),
        first_error(tokens.take(k)) is Some,
    ensures
        first_error(tokens) == first_error(tokens.take(k)),
    decreases tokens.len(),
{
    if k == tokens.len() {
        assert(tokens.take(k) =~= tokens);
    } else {
        assert(tokens.drop_last().take(k) =~= tokens.take(k));
        lemma_first_error_stays(tokens.drop_last(), k);
    }
}

/// Gathers the segments of a document from its tokens. The first parse error
/// among the tokens ends the walk with that error; without one, the segments
/// are those that the walk has completed at the end of the tokens. No
/// plain-text segment is empty.
pub fn segment_tokens(tokens: &Vec<MarkupToken>) -> (result: Result<RichText, MarkupParseError>)
    ensures
        outcome_view(result) == segmentation(tokens_view(tokens@)),
        result matches Ok(segments) ==> plain_text_is_filled(segments_view(segments@)),
{
    let ghost all = tokens_view(tokens@);
    let mut sink = Html2RichTextSink::new();
    let mut i: usize = 0;
    while i < tokens.len()
        invariant
            all == tokens_view(tokens@),
            i <= tokens.len(),
            first_error(all.take(i as int)) is None,
            sink@ == after_tokens(initial_sink(), all.take(i as int)),
            -(i as int) <= sink@.tag_depth <= i as int,
        decreases tokens.len() - i,
    {
        proof {
            assert(all.take(i + 1).drop_last() =~= all.take(i as int));
            assert(all.take(i + 1).last() == tokens@[i as int]@);
        }
        match &tokens[i] {
            MarkupToken::ParseError { message } => {
                proof {
                    lemma_first_error_stays(all, i + 1);
                }
                return Err(
                    MarkupParseError { kind: ParseErrorKind::Malformed, message: message.clone() },
                );
            },
            token => {
                sink.process_token(token);
            },
        }
        i += 1;
    }
    proof {
        assert(all.take(i as int) =~= all);
        lemma_plain_text_is_filled(all);
    }
    sink.finish();
    Ok(sink.text)
}

/// Splits an HTML fragment into plain text and links: tokenizes it and
/// gathers the segments from the tokens. A fragment of more than
/// `MAX_DOCUMENT_BYTES` bytes is not tokenized: it is too long, and only such
/// a fragment is.
pub fn from_html(content: &str) -> (result: Result<RichText, MarkupParseError>)
    ensures
        outcome_view(result) == document_segmentation(content@),
        result matches Ok(segments) ==> plain_text_is_filled(segments_view(segments@)),
{
    if utf8_len(content) > MAX_DOCUMENT_BYTES {
        return Err(
            MarkupParseError {
                kind: ParseErrorKind::TooLong,
                message: "The document is too long.".to_owned(),
            },
        );
    }
    let tokens = tokenize(content);
    segment_tokens(&tokens)
}

} // verus!
