//! Fitting a body into a character budget, with byte-exact link spans.
//!
//! The budget counts characters (Unicode scalar values); the spans count
//! bytes of the text's UTF-8 encoding. The budget that `compose` takes is the
//! room for the body alone: `reserve_budget` computes it from the limit of a
//! whole post by setting aside the trailing text, the item's link and the
//! ellipsis marker, so one reservation rule holds for every post.

use crate::compose_laws::{
    covered_texts, lemma_composed_well_formed, lemma_spans_on_boundaries, lemma_spans_round_trip,
    spans_cover, spans_on_boundaries, spans_well_formed,
};
use crate::richtext::{segments_view, RichTextSegment, SegmentView};
use crate::text::{byte_len, lemma_encode_concat, take_chars, utf8_len};
use vstd::prelude::*;
use vstd::string::*;
use vstd::utf8::*;

verus! {

/// A link over the bytes `byte_start..byte_end` of a post's encoded text.
#[derive(Debug)]
pub struct AnnotationSpan {
    pub byte_start: usize,
    pub byte_end: usize,
    pub target_url: String,
}

/// An annotation span with unbounded offsets.
pub struct SpanView {
    pub byte_start: nat,
    pub byte_end: nat,
    pub target_url: Seq<char>,
}

impl View for AnnotationSpan {
    type V = SpanView;

    open spec fn view(&self) -> SpanView {
        SpanView {
            byte_start: self.byte_start as nat,
            byte_end: self.byte_end as nat,
            target_url: self.target_url@,
        }
    }
}

/// The text of a post and the links in it, in the order of their first byte.
#[derive(Debug)]
pub struct ComposedPost {
    pub text: String,
    pub annotations: Vec<AnnotationSpan>,
}

/// A composed post as a character sequence and a sequence of spans.
pub struct PostView {
    pub text: Seq<char>,
    pub annotations: Seq<SpanView>,
}

impl View for ComposedPost {
    type V = PostView;

    open spec fn view(&self) -> PostView {
        PostView { text: self.text@, annotations: spans_view(self.annotations@) }
    }
}

/// The views of a run of spans, in order.
pub open spec fn spans_view(spans: Seq<AnnotationSpan>) -> Seq<SpanView> {
    spans.map_values(|s: AnnotationSpan| s@)
}

/// The marker that follows a body that was cut: three dots and a line break.
pub open spec fn ellipsis() -> Seq<char> {
    seq!['.', '.', '.', '\n']
}

/// The display texts of all segments, one after the other.
pub open spec fn body_source(segments: Seq<SegmentView>) -> Seq<char>
    decreases segments.len(),
{
    if segments.len() == 0 {
        Seq::empty()
    } else {
        body_source(segments.drop_last()) + segments.last().display()
    }
}

/// Whether the body has more characters than the budget allows.
pub open spec fn is_truncated(segments: Seq<SegmentView>, budget: nat) -> bool {
    body_source(segments).len() > budget
}

/// The part of the body that the post shows: its first `budget` characters.
pub open spec fn body_text(segments: Seq<SegmentView>, budget: nat) -> Seq<char> {
    take_chars(body_source(segments), budget)
}

/// Whether the last of `segments` is a link that starts within the budget.
pub open spec fn last_is_shown_link(segments: Seq<SegmentView>, budget: nat) -> bool {
    &&& segments.len() > 0
    &&& segments.last() is Link
    &&& body_source(segments.drop_last()).len() <= budget
}

/// The part of the last segment's display text that the post shows.
pub open spec fn last_shown_text(segments: Seq<SegmentView>, budget: nat) -> Seq<char>
    recommends
        segments.len() > 0,
        body_source(segments.drop_last()).len() <= budget,
{
    let before = body_source(segments.drop_last());
    take_chars(segments.last().display(), (budget - before.len()) as nat)
}

/// The spans of the links in the body. A link gets a span when the text before
/// it fits the budget; the span covers what is shown of the link's text, which
/// is nothing where the budget is used up.
pub open spec fn link_spans(segments: Seq<SegmentView>, budget: nat) -> Seq<SpanView>
    decreases segments.len(),
{
    if segments.len() == 0 {
        Seq::empty()
    } else {
        let earlier = link_spans(segments.drop_last(), budget);
        if last_is_shown_link(segments, budget) {
            let before = body_source(segments.drop_last());
            earlier.push(
                SpanView {
                    byte_start: byte_len(before),
                    byte_end: byte_len(before) + byte_len(last_shown_text(segments, budget)),
                    target_url: segments.last()->link,
                },
            )
        } else {
            earlier
        }
    }
}

/// For each span of `link_spans`, the text that it covers.
pub open spec fn link_texts(segments: Seq<SegmentView>, budget: nat) -> Seq<Seq<char>>
    decreases segments.len(),
{
    if segments.len() == 0 {
        Seq::empty()
    } else {
        let earlier = link_texts(segments.drop_last(), budget);
        if last_is_shown_link(segments, budget) {
            earlier.push(last_shown_text(segments, budget))
        } else {
            earlier
        }
    }
}

/// What stands before the item's link: the shown body, the ellipsis marker
/// where the body was cut, and the trailing text.
pub open spec fn post_head(segments: Seq<SegmentView>, budget: nat, trailing: Seq<char>) -> Seq<
    char,
> {
    if is_truncated(segments, budget) {
        body_text(segments, budget) + ellipsis() + trailing
    } else {
        body_text(segments, budget) + trailing
    }
}

/// The span of the item's link, which ends the post.
pub open spec fn trailing_span(head: Seq<char>, item_link: Seq<char>) -> SpanView {
    SpanView {
        byte_start: byte_len(head),
        byte_end: byte_len(head) + byte_len(item_link),
        target_url: item_link,
    }
}

/// The post for a body, a budget, a trailing text and the item's link.
pub open spec fn composed(
    segments: Seq<SegmentView>,
    budget: nat,
    trailing: Seq<char>,
    item_link: Seq<char>,
) -> PostView {
    let head = post_head(segments, budget, trailing);
    PostView {
        text: head + item_link,
        annotations: link_spans(segments, budget).push(trailing_span(head, item_link)),
    }
}

/// Taking from a concatenation whose first part fits: the first part, then
/// what fits of the second.
pub proof fn lemma_take_concat(a: Seq<char>, b: Seq<char>, n: nat)
    requires
        a.len() <= n,
    ensures
        take_chars(a + b, n) == a + take_chars(b, (n - a.len()) as nat),
{
    assert(take_chars(a + b, n) =~= a + take_chars(b, (n - a.len()) as nat));
}

/// Once the first `k` segments exceed the budget, the later ones change
/// neither the shown body nor the spans.
pub proof fn lemma_rest_is_cut(segments: Seq<SegmentView>, k: int, budget: nat)
    requires
        0 <= k <= segments.len(),
        is_truncated(segments.take(k), budget),
    ensures
        is_truncated(segments, budget),
        body_text(segments, budget) == body_text(segments.take(k), budget),
        link_spans(segments, budget) == link_spans(segments.take(k), budget),
        link_texts(segments, budget) == link_texts(segments.take(k), budget),
    decreases segments.len(),
{
    if k == segments.len() {
        assert(segments.take(k) =~= segments);
    } else {
        let init = segments.drop_last();
        assert(init.take(k) =~= segments.take(k));
        lemma_rest_is_cut(init, k, budget);
        assert(body_text(segments, budget) =~= body_text(init, budget));
    }
}

/// Appends to `content` the first `room` characters of `text`, or all of it
/// where it has no more than that, and says whether all of it went in.
fn push_within(content: &mut String, text: &str, room: usize) -> (fits: bool)
    ensures
        final(content)@ == old(content)@ + take_chars(text@, room as nat),
        fits == (text@.len() <= room),
{
    let count = text.unicode_len();
    if count > room {
        content.append(text.substring_char(0, room));
        false
    } else {
        content.append(text);
        true
    }
}

/// Composes the post for a body: the segments in order as far as
/// `char_budget` characters reach, the ellipsis marker where the body was
/// cut, the trailing text, and the item's link. Every link that starts within
/// the budget gets a span over the bytes of what is shown of it, and the
/// item's link gets the last span. The spans lie within the text, follow each
/// other without overlap, start and end at character boundaries, and the
/// bytes under each are the encoding of the text that it stands for.
pub fn compose(
    segments: &Vec<RichTextSegment>,
    char_budget: usize,
    trailing_text: &str,
    item_link: &str,
) -> (post: ComposedPost)
    ensures
        post@ == composed(
            segments_view(segments@),
            char_budget as nat,
            trailing_text@,
            item_link@,
        ),
        spans_well_formed(post@.text, post@.annotations),
        spans_on_boundaries(post@.text, post@.annotations),
        spans_cover(
            post@.text,
            post@.annotations,
            covered_texts(segments_view(segments@), char_budget as nat, item_link@),
        ),
{
    let ghost segs = segments_view(segments@);
    let ghost budget = char_budget as nat;
    let mut content = String::new();
    let mut remaining = char_budget;
    let mut truncated = false;
    let mut spans: Vec<AnnotationSpan> = Vec::new();
    let mut i: usize = 0;
    assert(spans_view(spans@) =~= link_spans(segs.take(0), budget));
    while i < segments.len() && !truncated
        invariant
            segs == segments_view(segments@),
            budget == char_budget as nat,
            i <= segments.len(),
            truncated == is_truncated(segs.take(i as int), budget),
            !truncated ==> body_source(segs.take(i as int)).len() + remaining == budget,
            content@ == body_text(segs.take(i as int), budget),
            spans_view(spans@) == link_spans(segs.take(i as int), budget),
        decreases segments.len() - i,
    {
        let ghost before = body_source(segs.take(i as int));
        let ghost upto = segs.take(i + 1);
        proof {
            assert(upto.drop_last() =~= segs.take(i as int));
            assert(upto.last() == segments@[i as int]@);
            lemma_take_concat(before, upto.last().display(), budget);
        }
        match &segments[i] {
            RichTextSegment::PlainText { text } => {
                let count = text.as_str().unicode_len();
                if push_within(&mut content, text.as_str(), remaining) {
                    remaining -= count;
                } else {
                    truncated = true;
                    remaining = 0;
                }
            },
            RichTextSegment::Link { text, link } => {
                let count = text.as_str().unicode_len();
                let byte_start = utf8_len(content.as_str());
                if push_within(&mut content, text.as_str(), remaining) {
                    remaining -= count;
                } else {
                    truncated = true;
                    remaining = 0;
                }
                let byte_end = utf8_len(content.as_str());
                let span = AnnotationSpan { byte_start, byte_end, target_url: link.clone() };
                proof {
                    lemma_encode_concat(before, last_shown_text(upto, budget));
                    assert(spans_view(spans@.push(span)) =~= spans_view(spans@).push(span@));
                }
                spans.push(span);
            },
        }
        i += 1;
    }
    proof {
        if truncated {
            lemma_rest_is_cut(segs, i as int, budget);
        } else {
            assert(segs.take(i as int) =~= segs);
        }
    }
    if truncated {
        proof {
            reveal_strlit("...\n");
        }
        content.append("...\n");
        assert(content@ =~= body_text(segs, budget) + ellipsis());
    }
    content.append(trailing_text);
    let byte_start = utf8_len(content.as_str());
    content.append(item_link);
    let byte_end = utf8_len(content.as_str());
    let span = AnnotationSpan { byte_start, byte_end, target_url: item_link.to_owned() };
    proof {
        lemma_encode_concat(post_head(segs, budget, trailing_text@), item_link@);
        assert(spans_view(spans@.push(span)) =~= spans_view(spans@).push(span@));
        lemma_composed_well_formed(segs, budget, trailing_text@, item_link@);
        lemma_spans_on_boundaries(segs, budget, trailing_text@, item_link@);
        lemma_spans_round_trip(segs, budget, trailing_text@, item_link@);
    }
    spans.push(span);
    ComposedPost { text: content, annotations: spans }
}

/// The room that a post of at most `limit` characters has for its body, once
/// the trailing text, the item's link and the ellipsis marker are set aside;
/// none where they leave none.
pub open spec fn budget_for(limit: nat, trailing: Seq<char>, item_link: Seq<char>) -> nat {
    if limit >= trailing.len() + item_link.len() + ellipsis().len() {
        (limit - trailing.len() - item_link.len() - ellipsis().len()) as nat
    } else {
        0
    }
}

/// The budget for the body of a post that may have `post_text_limit`
/// characters in all.
pub fn reserve_budget(post_text_limit: usize, trailing_text: &str, item_link: &str) -> (budget:
    usize)
    ensures
        budget == budget_for(post_text_limit as nat, trailing_text@, item_link@),
{
    let trailing = trailing_text.unicode_len();
    let link = item_link.unicode_len();
    if post_text_limit < trailing {
        return 0;
    }
    let after_trailing = post_text_limit - trailing;
    if after_trailing < link {
        return 0;
    }
    let after_link = after_trailing - link;
    if after_link < 4 {
        return 0;
    }
    after_link - 4
}

} // verus!
