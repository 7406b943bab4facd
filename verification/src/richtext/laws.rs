//! What holds of the segments of whole classes of documents.

use crate::compose::body_source;
use crate::markup::{MarkupTokenView, TagAttributeView};
use crate::richtext::from_html_impl::{
    after_chars, after_finish, after_token, after_tokens, anchor_name, first_error, href_of,
    initial_sink, line_break_name, segmentation, ProcessStateView, SinkView,
};
use crate::richtext::{ParseErrorView, SegmentView};
use vstd::prelude::*;

verus! {

/// A token that neither opens nor closes a link, nor ends the document, nor
/// reports an error.
pub open spec fn is_neutral(token: MarkupTokenView) -> bool {
    match token {
        MarkupTokenView::StartTag { name, .. } => name != anchor_name(),
        MarkupTokenView::EndTag { name } => name != anchor_name(),
        MarkupTokenView::EndOfInput => false,
        MarkupTokenView::ParseError { .. } => false,
        _ => true,
    }
}

/// Whether every token is neutral.
pub open spec fn all_neutral(tokens: Seq<MarkupTokenView>) -> bool {
    forall|i: int| 0 <= i < tokens.len() ==> is_neutral(#[trigger] tokens[i])
}

/// The character data that a token stands for: its text, U+0000 for the
/// null character, a newline for a line break.
pub open spec fn char_data(token: MarkupTokenView) -> Seq<char> {
    match token {
        MarkupTokenView::Characters { text } => text,
        MarkupTokenView::NullCharacter => seq!['\0'],
        MarkupTokenView::StartTag { name, .. } => if name == line_break_name() {
            seq!['\n']
        } else {
            Seq::empty()
        },
        _ => Seq::empty(),
    }
}

/// The character data of a run of tokens, in document order.
pub open spec fn char_data_of(tokens: Seq<MarkupTokenView>) -> Seq<char>
    decreases tokens.len(),
{
    if tokens.len() == 0 {
        Seq::empty()
    } else {
        char_data_of(tokens.drop_last()) + char_data(tokens.last())
    }
}

/// By how much a token changes the depth.
pub open spec fn depth_change(token: MarkupTokenView) -> int {
    match token {
        MarkupTokenView::StartTag { self_closing, .. } => if self_closing {
            0
        } else {
            1
        },
        MarkupTokenView::EndTag { .. } => -1,
        _ => 0,
    }
}

/// By how much a run of tokens changes the depth.
pub open spec fn depth_change_of(tokens: Seq<MarkupTokenView>) -> int
    decreases tokens.len(),
{
    if tokens.len() == 0 {
        0
    } else {
        depth_change_of(tokens.drop_last()) + depth_change(tokens.last())
    }
}

/// The segments of a document that is character data alone: one plain-text
/// segment, or none where there is no character data.
pub open spec fn plain_segments(data: Seq<char>) -> Seq<SegmentView> {
    if data.len() == 0 {
        Seq::empty()
    } else {
        seq![SegmentView::PlainText { text: data }]
    }
}

/// Character data that arrives in two runs grows the same piece as the two
/// runs in one.
pub proof fn lemma_chars_in_two_runs(state: ProcessStateView, a: Seq<char>, b: Seq<char>)
    ensures
        after_chars(after_chars(state, a), b) == after_chars(state, a + b),
{
    if a.len() == 0 {
        assert(a + b =~= b);
    } else if b.len() == 0 {
        assert(a + b =~= a);
    } else {
        match state {
            ProcessStateView::NotProcessed => {},
            ProcessStateView::ProcessingPlainText { text_continue } => {
                assert((text_continue + a) + b =~= text_continue + (a + b));
            },
            ProcessStateView::ProcessingLink { text_continue, .. } => {
                assert((text_continue + a) + b =~= text_continue + (a + b));
            },
        }
    }
}

/// Walking over two runs of tokens is walking over the first and then over
/// the second.
pub proof fn lemma_walk_in_two_runs(
    sink: SinkView,
    a: Seq<MarkupTokenView>,
    b: Seq<MarkupTokenView>,
)
    ensures
        after_tokens(sink, a + b) == after_tokens(after_tokens(sink, a), b),
    decreases b.len(),
{
    if b.len() == 0 {
        assert(a + b =~= a);
    } else {
        assert((a + b).drop_last() =~= a + b.drop_last());
        assert((a + b).last() == b.last());
        lemma_walk_in_two_runs(sink, a, b.drop_last());
    }
}

/// The first parse error of two runs is that of the first run, or else that
/// of the second.
pub proof fn lemma_first_error_in_two_runs(a: Seq<MarkupTokenView>, b: Seq<MarkupTokenView>)
    ensures
        first_error(a + b) == if first_error(a) is Some {
            first_error(a)
        } else {
            first_error(b)
        },
    decreases b.len(),
{
    if b.len() == 0 {
        assert(a + b =~= a);
    } else {
        assert((a + b).drop_last() =~= a + b.drop_last());
        assert((a + b).last() == b.last());
        lemma_first_error_in_two_runs(a, b.drop_last());
    }
}

/// The character data of two runs is that of the first, then that of the
/// second.
pub proof fn lemma_char_data_in_two_runs(a: Seq<MarkupTokenView>, b: Seq<MarkupTokenView>)
    ensures
        char_data_of(a + b) == char_data_of(a) + char_data_of(b),
    decreases b.len(),
{
    if b.len() == 0 {
        assert(a + b =~= a);
        assert(char_data_of(a) + char_data_of(b) =~= char_data_of(a));
    } else {
        assert((a + b).drop_last() =~= a + b.drop_last());
        assert((a + b).last() == b.last());
        lemma_char_data_in_two_runs(a, b.drop_last());
        assert(char_data_of(a + b) =~= char_data_of(a) + char_data_of(b));
    }
}

/// A run of one token is that token.
pub proof fn lemma_single_token(sink: SinkView, token: MarkupTokenView)
    ensures
        after_tokens(sink, seq![token]) == after_token(sink, token),
        char_data_of(seq![token]) == char_data(token),
        depth_change_of(seq![token]) == depth_change(token),
        first_error(seq![token]) is Some <==> token is ParseError,
{
    reveal_with_fuel(after_tokens, 2);
    reveal_with_fuel(char_data_of, 2);
    reveal_with_fuel(depth_change_of, 2);
    reveal_with_fuel(first_error, 2);
    assert(seq![token].drop_last() =~= Seq::empty());
    assert(char_data_of(seq![token]) =~= char_data(token));
}

/// A neutral token adds its character data to the piece that is growing and
/// changes the depth; it completes nothing.
pub proof fn lemma_neutral_token(sink: SinkView, token: MarkupTokenView)
    requires
        is_neutral(token),
    ensures
        after_token(sink, token) == (SinkView {
            text: sink.text,
            tag_depth: sink.tag_depth + depth_change(token),
            state: after_chars(sink.state, char_data(token)),
        }),
{
}

/// Neutral tokens add their character data to the piece that is growing and
/// change the depth; they complete nothing and report no error.
pub proof fn lemma_neutral_tokens(sink: SinkView, tokens: Seq<MarkupTokenView>)
    requires
        all_neutral(tokens),
    ensures
        after_tokens(sink, tokens) == (SinkView {
            text: sink.text,
            tag_depth: sink.tag_depth + depth_change_of(tokens),
            state: after_chars(sink.state, char_data_of(tokens)),
        }),
        first_error(tokens) is None,
    decreases tokens.len(),
{
    if tokens.len() > 0 {
        let init = tokens.drop_last();
        assert(all_neutral(init)) by {
            assert forall|i: int| 0 <= i < init.len() implies is_neutral(#[trigger] init[i]) by {
                assert(init[i] == tokens[i]);
            }
        }
        lemma_neutral_tokens(sink, init);
        lemma_neutral_token(after_tokens(sink, init), tokens.last());
        lemma_chars_in_two_runs(sink.state, char_data_of(init), char_data(tokens.last()));
    }
}

/// A document without anchors is one plain-text segment that holds its
/// character data, line breaks as newlines; without character data it has
/// no segments. The token that ends the document changes nothing in this.
pub proof fn lemma_plain_document(tokens: Seq<MarkupTokenView>)
    requires
        all_neutral(tokens),
    ensures
        segmentation(tokens) == Ok::<Seq<SegmentView>, ParseErrorView>(
            plain_segments(char_data_of(tokens)),
        ),
        segmentation(tokens.push(MarkupTokenView::EndOfInput)) == segmentation(tokens),
{
    let whole = tokens.push(MarkupTokenView::EndOfInput);
    lemma_neutral_tokens(initial_sink(), tokens);
    assert(whole.drop_last() =~= tokens);
    let walked = after_tokens(initial_sink(), tokens);
    assert(after_finish(walked).text =~= plain_segments(char_data_of(tokens)));
    assert(after_finish(after_finish(walked)) == after_finish(walked));
}

/// Whether no plain-text segment is empty.
pub open spec fn plain_text_is_filled(segments: Seq<SegmentView>) -> bool {
    forall|i: int|
        0 <= i < segments.len() && (#[trigger] segments[i]) is PlainText
            ==> segments[i].display().len() > 0
}

/// Whether the walk holds no empty plain text, complete or growing.
pub open spec fn walk_is_filled(sink: SinkView) -> bool {
    &&& plain_text_is_filled(sink.text)
    &&& sink.state matches ProcessStateView::ProcessingPlainText { text_continue }
        ==> text_continue.len() > 0
}

/// No token brings empty plain text into the walk, nor does the end of the
/// document.
pub proof fn lemma_token_keeps_filled(sink: SinkView, token: MarkupTokenView)
    requires
        walk_is_filled(sink),
    ensures
        walk_is_filled(after_token(sink, token)),
        walk_is_filled(after_finish(sink)),
{
    let next = after_token(sink, token);
    assert forall|i: int|
        0 <= i < next.text.len() && (#[trigger] next.text[i]) is PlainText implies
        next.text[i].display().len() > 0 by {
        if i < sink.text.len() {
            assert(next.text[i] == sink.text[i]);
        }
    }
    let end = after_finish(sink);
    assert forall|i: int|
        0 <= i < end.text.len() && (#[trigger] end.text[i]) is PlainText implies
        end.text[i].display().len() > 0 by {
        if i < sink.text.len() {
            assert(end.text[i] == sink.text[i]);
        }
    }
}

/// Whatever the tokens, the walk over them holds no empty plain text.
pub proof fn lemma_walk_is_filled(tokens: Seq<MarkupTokenView>)
    ensures
        walk_is_filled(after_tokens(initial_sink(), tokens)),
    decreases tokens.len(),
{
    if tokens.len() > 0 {
        lemma_walk_is_filled(tokens.drop_last());
        lemma_token_keeps_filled(after_tokens(initial_sink(), tokens.drop_last()), tokens.last());
    }
}

/// Whatever the document, none of its plain-text segments is empty.
pub proof fn lemma_plain_text_is_filled(tokens: Seq<MarkupTokenView>)
    ensures
        segmentation(tokens) matches Ok(segments) ==> plain_text_is_filled(segments),
{
    lemma_walk_is_filled(tokens);
    lemma_token_keeps_filled(
        after_tokens(initial_sink(), tokens),
        MarkupTokenView::EndOfInput,
    );
}

/// A part of a document: a neutral token, or an anchor element with the
/// tokens between its start tag and its end tag.
pub enum Piece {
    Outside { token: MarkupTokenView },
    Anchor { attrs: Seq<TagAttributeView>, inner: Seq<MarkupTokenView> },
}

/// Whether a piece is as the law on anchors takes it: a neutral token; or an
/// anchor with a target, with nothing but neutral tokens inside, of which
/// no start tag is left open.
pub open spec fn piece_ok(piece: Piece) -> bool {
    match piece {
        Piece::Outside { token } => is_neutral(token),
        Piece::Anchor { attrs, inner } => {
            &&& href_of(attrs) is Some
            &&& all_neutral(inner)
            &&& depth_change_of(inner) <= 0
        },
    }
}

/// Whether every piece is as the law on anchors takes it.
pub open spec fn pieces_ok(pieces: Seq<Piece>) -> bool {
    forall|i: int| 0 <= i < pieces.len() ==> piece_ok(#[trigger] pieces[i])
}

/// The tokens of a piece.
pub open spec fn piece_tokens(piece: Piece) -> Seq<MarkupTokenView> {
    match piece {
        Piece::Outside { token } => seq![token],
        Piece::Anchor { attrs, inner } => seq![
            MarkupTokenView::StartTag { name: anchor_name(), attrs, self_closing: false },
        ] + inner + seq![MarkupTokenView::EndTag { name: anchor_name() }],
    }
}

/// The tokens of a document made of the given pieces.
pub open spec fn document_tokens(pieces: Seq<Piece>) -> Seq<MarkupTokenView>
    decreases pieces.len(),
{
    if pieces.len() == 0 {
        Seq::empty()
    } else {
        document_tokens(pieces.drop_last()) + piece_tokens(pieces.last())
    }
}

/// The plain text that follows the last anchor of the pieces.
pub open spec fn pending_text(pieces: Seq<Piece>) -> Seq<char>
    decreases pieces.len(),
{
    if pieces.len() == 0 {
        Seq::empty()
    } else {
        match pieces.last() {
            Piece::Outside { token } => pending_text(pieces.drop_last()) + char_data(token),
            Piece::Anchor { .. } => Seq::empty(),
        }
    }
}

/// The segments up to the last anchor of the pieces: for each anchor the
/// plain text before it, if there is any, and then its link.
pub open spec fn completed_segments(pieces: Seq<Piece>) -> Seq<SegmentView>
    decreases pieces.len(),
{
    if pieces.len() == 0 {
        Seq::empty()
    } else {
        match pieces.last() {
            Piece::Outside { .. } => completed_segments(pieces.drop_last()),
            Piece::Anchor { attrs, inner } => (completed_segments(pieces.drop_last())
                + plain_segments(pending_text(pieces.drop_last()))).push(
                SegmentView::Link { text: char_data_of(inner), link: href_of(attrs)->0 },
            ),
        }
    }
}

/// The segments of a document made of the given pieces: the links of its
/// anchors, with the plain text between them.
pub open spec fn expected_segments(pieces: Seq<Piece>) -> Seq<SegmentView> {
    completed_segments(pieces) + plain_segments(pending_text(pieces))
}

/// The links of the anchors, in document order.
pub open spec fn anchor_links(pieces: Seq<Piece>) -> Seq<SegmentView>
    decreases pieces.len(),
{
    if pieces.len() == 0 {
        Seq::empty()
    } else {
        match pieces.last() {
            Piece::Outside { .. } => anchor_links(pieces.drop_last()),
            Piece::Anchor { attrs, inner } => anchor_links(pieces.drop_last()).push(
                SegmentView::Link { text: char_data_of(inner), link: href_of(attrs)->0 },
            ),
        }
    }
}

/// How many of the pieces are anchors.
pub open spec fn anchor_count(pieces: Seq<Piece>) -> nat
    decreases pieces.len(),
{
    if pieces.len() == 0 {
        0
    } else if pieces.last() is Anchor {
        anchor_count(pieces.drop_last()) + 1
    } else {
        anchor_count(pieces.drop_last())
    }
}

/// The link segments among the segments, in order.
pub open spec fn links_of(segments: Seq<SegmentView>) -> Seq<SegmentView>
    decreases segments.len(),
{
    if segments.len() == 0 {
        Seq::empty()
    } else if segments.last() is Link {
        links_of(segments.drop_last()).push(segments.last())
    } else {
        links_of(segments.drop_last())
    }
}

/// The walk over a document of well-formed pieces has completed the segments
/// up to the last anchor and is growing the plain text after it.
pub proof fn lemma_walk_over_pieces(pieces: Seq<Piece>)
    requires
        pieces_ok(pieces),
    ensures
        after_tokens(initial_sink(), document_tokens(pieces)).text == completed_segments(pieces),
        after_tokens(initial_sink(), document_tokens(pieces)).state == after_chars(
            ProcessStateView::NotProcessed,
            pending_text(pieces),
        ),
        first_error(document_tokens(pieces)) is None,
    decreases pieces.len(),
{
    if pieces.len() > 0 {
        let init = pieces.drop_last();
        assert(pieces_ok(init)) by {
            assert forall|i: int| 0 <= i < init.len() implies piece_ok(#[trigger] init[i]) by {
                assert(init[i] == pieces[i]);
            }
        }
        lemma_walk_over_pieces(init);
        let before = after_tokens(initial_sink(), document_tokens(init));
        let tokens = piece_tokens(pieces.last());
        lemma_walk_in_two_runs(initial_sink(), document_tokens(init), tokens);
        lemma_first_error_in_two_runs(document_tokens(init), tokens);
        assert(piece_ok(pieces.last()));
        match pieces.last() {
            Piece::Outside { token } => {
                lemma_single_token(before, token);
                lemma_neutral_token(before, token);
                lemma_chars_in_two_runs(
                    ProcessStateView::NotProcessed,
                    pending_text(init),
                    char_data(token),
                );
            },
            Piece::Anchor { attrs, inner } => {
                let open = MarkupTokenView::StartTag {
                    name: anchor_name(),
                    attrs,
                    self_closing: false,
                };
                let close = MarkupTokenView::EndTag { name: anchor_name() };
                let head = seq![open];
                let tail = seq![close];
                assert(tokens == (head + inner) + tail);
                lemma_walk_in_two_runs(before, head + inner, tail);
                lemma_walk_in_two_runs(before, head, inner);
                lemma_first_error_in_two_runs(head + inner, tail);
                lemma_first_error_in_two_runs(head, inner);
                lemma_single_token(before, open);
                let opened = after_tokens(before, head);
                assert(opened.text =~= completed_segments(init) + plain_segments(
                    pending_text(init),
                ));
                lemma_neutral_tokens(opened, inner);
                let inside = after_tokens(opened, inner);
                assert(Seq::<char>::empty() + char_data_of(inner) =~= char_data_of(inner));
                lemma_single_token(inside, close);
            },
        }
    }
}

/// A document made of neutral tokens and of anchors, each with a target and
/// with neutral tokens inside that leave no start tag open, has one link for
/// each anchor, with the anchor's character data as its text, and between the
/// links the plain text that stands between the anchors, in document order.
/// The token that ends the document changes nothing in this.
pub proof fn lemma_anchored_document(pieces: Seq<Piece>)
    requires
        pieces_ok(pieces),
    ensures
        segmentation(document_tokens(pieces)) == Ok::<Seq<SegmentView>, ParseErrorView>(
            expected_segments(pieces),
        ),
        segmentation(document_tokens(pieces).push(MarkupTokenView::EndOfInput)) == segmentation(
            document_tokens(pieces),
        ),
{
    let tokens = document_tokens(pieces);
    let whole = tokens.push(MarkupTokenView::EndOfInput);
    lemma_walk_over_pieces(pieces);
    assert(whole.drop_last() =~= tokens);
    let walked = after_tokens(initial_sink(), tokens);
    assert(after_finish(walked).text =~= expected_segments(pieces));
    assert(after_finish(after_finish(walked)) == after_finish(walked));
}

/// The link segments among two runs of segments are those of the first, then
/// those of the second.
pub proof fn lemma_links_in_two_runs(a: Seq<SegmentView>, b: Seq<SegmentView>)
    ensures
        links_of(a + b) == links_of(a) + links_of(b),
    decreases b.len(),
{
    if b.len() == 0 {
        assert(a + b =~= a);
        assert(links_of(a) + links_of(b) =~= links_of(a));
    } else {
        assert((a + b).drop_last() =~= a + b.drop_last());
        assert((a + b).last() == b.last());
        lemma_links_in_two_runs(a, b.drop_last());
        assert(links_of(a + b) =~= links_of(a) + links_of(b));
    }
}

/// The display texts of two runs of segments are those of the first, then
/// those of the second.
pub proof fn lemma_source_in_two_runs(a: Seq<SegmentView>, b: Seq<SegmentView>)
    ensures
        body_source(a + b) == body_source(a) + body_source(b),
    decreases b.len(),
{
    if b.len() == 0 {
        assert(a + b =~= a);
        assert(body_source(a) + body_source(b) =~= body_source(a));
    } else {
        assert((a + b).drop_last() =~= a + b.drop_last());
        assert((a + b).last() == b.last());
        lemma_source_in_two_runs(a, b.drop_last());
        assert(body_source(a + b) =~= body_source(a) + body_source(b));
    }
}

/// Plain text alone holds no link, shows its characters, and is no empty
/// segment.
pub proof fn lemma_plain_segments(data: Seq<char>)
    ensures
        links_of(plain_segments(data)) == Seq::<SegmentView>::empty(),
        body_source(plain_segments(data)) == data,
        forall|i: int|
            0 <= i < plain_segments(data).len() ==> (#[trigger] plain_segments(
                data,
            )[i]).display().len() > 0,
{
    let segments = plain_segments(data);
    reveal_with_fuel(links_of, 2);
    reveal_with_fuel(body_source, 2);
    if data.len() > 0 {
        assert(segments.drop_last() =~= Seq::<SegmentView>::empty());
    }
    assert(body_source(segments) =~= data);
}

/// Of the segments expected for a document of pieces: there are as many links
/// as anchors, and they are the anchors' links in document order; the display
/// texts together are the character data of the document, in document order;
/// and no plain-text segment is empty.
pub proof fn lemma_expected_segments(pieces: Seq<Piece>)
    requires
        pieces_ok(pieces),
    ensures
        links_of(expected_segments(pieces)) == anchor_links(pieces),
        anchor_links(pieces).len() == anchor_count(pieces),
        body_source(expected_segments(pieces)) == char_data_of(document_tokens(pieces)),
        forall|i: int|
            0 <= i < expected_segments(pieces).len() && (#[trigger] expected_segments(
                pieces,
            )[i]) is PlainText ==> expected_segments(pieces)[i].display().len() > 0,
    decreases pieces.len(),
{
    let expected = expected_segments(pieces);
    lemma_plain_segments(pending_text(pieces));
    if pieces.len() == 0 {
        assert(expected =~= Seq::<SegmentView>::empty());
        assert(body_source(expected) =~= char_data_of(document_tokens(pieces)));
    } else {
        let init = pieces.drop_last();
        assert(pieces_ok(init)) by {
            assert forall|i: int| 0 <= i < init.len() implies piece_ok(#[trigger] init[i]) by {
                assert(init[i] == pieces[i]);
            }
        }
        lemma_expected_segments(init);
        lemma_plain_segments(pending_text(init));
        let done = completed_segments(init);
        let old_pending = plain_segments(pending_text(init));
        let new_pending = plain_segments(pending_text(pieces));
        lemma_links_in_two_runs(done, old_pending);
        lemma_source_in_two_runs(done, old_pending);
        lemma_links_in_two_runs(completed_segments(pieces), new_pending);
        lemma_source_in_two_runs(completed_segments(pieces), new_pending);
        lemma_char_data_in_two_runs(document_tokens(init), piece_tokens(pieces.last()));
        assert(links_of(done) + Seq::<SegmentView>::empty() =~= links_of(done));
        assert(piece_ok(pieces.last()));
        match pieces.last() {
            Piece::Outside { token } => {
                lemma_single_token(initial_sink(), token);
                assert(body_source(done) + (pending_text(init) + char_data(token)) =~= (
                body_source(done) + pending_text(init)) + char_data(token));
            },
            Piece::Anchor { attrs, inner } => {
                let link = SegmentView::Link { text: char_data_of(inner), link: href_of(attrs)->0 };
                let open = MarkupTokenView::StartTag {
                    name: anchor_name(),
                    attrs,
                    self_closing: false,
                };
                let close = MarkupTokenView::EndTag { name: anchor_name() };
                let tokens = piece_tokens(pieces.last());
                assert(tokens == (seq![open] + inner) + seq![close]);
                lemma_char_data_in_two_runs(seq![open] + inner, seq![close]);
                lemma_char_data_in_two_runs(seq![open], inner);
                lemma_single_token(initial_sink(), open);
                lemma_single_token(initial_sink(), close);
                assert(anchor_name() != line_break_name()) by {
                    assert(anchor_name().len() != line_break_name().len());
                }
                assert(char_data_of(seq![open]) =~= Seq::<char>::empty());
                assert(char_data_of(seq![close]) =~= Seq::<char>::empty());
                assert(char_data_of(tokens) =~= char_data_of(inner));
                let completed = completed_segments(pieces);
                assert(completed == (done + old_pending).push(link));
                assert(completed.drop_last() =~= done + old_pending);
                assert(new_pending =~= Seq::<SegmentView>::empty());
                assert(expected =~= completed);
                assert forall|i: int|
                    0 <= i < expected.len() && (#[trigger] expected[i]) is PlainText implies
                    expected[i].display().len() > 0 by {
                    let earlier = expected_segments(init);
                    assert(earlier == done + old_pending);
                    if i < earlier.len() {
                        assert(expected[i] == earlier[i]);
                    }
                }
            },
        }
        if pieces.last() is Outside {
            assert forall|i: int|
                0 <= i < expected.len() && (#[trigger] expected[i]) is PlainText implies
                expected[i].display().len() > 0 by {
                if i < done.len() {
                    let earlier = expected_segments(init);
                    assert(earlier == done + old_pending);
                    assert(expected[i] == earlier[i]);
                }
            }
        }
    }
}

} // verus!
