//! What holds of every composed post.

use crate::compose::{
    body_source, body_text, budget_for, composed, ellipsis, is_truncated, last_is_shown_link,
    last_shown_text, lemma_take_concat, link_spans, link_texts, post_head, trailing_span,
    SpanView,
};
use crate::richtext::SegmentView;
use crate::text::{byte_len, lemma_encode_concat, lemma_prefix_is_boundary};
use vstd::prelude::*;
use vstd::utf8::*;

verus! {

/// Whether `span` lies within the encoding of `text` and the bytes under it
/// are the encoding of `covered`.
pub open spec fn span_covers(text: Seq<char>, span: SpanView, covered: Seq<char>) -> bool {
    &&& span.byte_start <= span.byte_end <= byte_len(text)
    &&& encode_utf8(text).subrange(span.byte_start as int, span.byte_end as int) == encode_utf8(
        covered,
    )
}

/// Whether `pos` bytes are what some whole number of leading characters of
/// `text` take.
pub open spec fn is_char_offset(text: Seq<char>, pos: nat) -> bool {
    exists|k: int| 0 <= k <= text.len() && pos == byte_len(#[trigger] text.take(k))
}

/// Whether the spans lie within `text`, start and end between characters,
/// and follow each other without overlap.
pub open spec fn spans_well_formed(text: Seq<char>, spans: Seq<SpanView>) -> bool {
    &&& forall|j: int|
        0 <= j < spans.len() ==> (#[trigger] spans[j]).byte_start <= spans[j].byte_end
            <= byte_len(text)
    &&& forall|j: int|
        0 <= j < spans.len() ==> is_char_offset(text, (#[trigger] spans[j]).byte_start)
            && is_char_offset(text, spans[j].byte_end)
    &&& forall|j: int, k: int|
        0 <= j < k < spans.len() ==> (#[trigger] spans[j]).byte_end <= (
        #[trigger] spans[k]).byte_start
}

/// Whether each span covers the text that stands at the same place in
/// `covered`.
pub open spec fn spans_cover(text: Seq<char>, spans: Seq<SpanView>, covered: Seq<Seq<char>>) -> bool {
    &&& spans.len() == covered.len()
    &&& forall|j: int|
        0 <= j < spans.len() ==> span_covers(text, #[trigger] spans[j], covered[j])
}

/// The texts under the spans of a composed post: what is shown of each link,
/// then the item's link.
pub open spec fn covered_texts(
    segments: Seq<SegmentView>,
    budget: nat,
    item_link: Seq<char>,
) -> Seq<Seq<char>> {
    link_texts(segments, budget).push(item_link)
}

/// A span that covers a text within `text` covers it within every extension.
pub proof fn lemma_cover_extends(
    text: Seq<char>,
    more: Seq<char>,
    span: SpanView,
    covered: Seq<char>,
)
    requires
        span_covers(text, span, covered),
    ensures
        span_covers(text + more, span, covered),
{
    lemma_encode_concat(text, more);
    assert((encode_utf8(text) + encode_utf8(more)).subrange(
        span.byte_start as int,
        span.byte_end as int,
    ) =~= encode_utf8(text).subrange(span.byte_start as int, span.byte_end as int));
}

/// An offset between characters of `text` is one of every extension.
pub proof fn lemma_offset_extends(text: Seq<char>, more: Seq<char>, pos: nat)
    requires
        is_char_offset(text, pos),
    ensures
        is_char_offset(text + more, pos),
{
    let k = choose|k: int| 0 <= k <= text.len() && pos == byte_len(#[trigger] text.take(k));
    assert((text + more).take(k) =~= text.take(k));
}

/// The end of a text is an offset between characters.
pub proof fn lemma_end_is_offset(text: Seq<char>)
    ensures
        is_char_offset(text, byte_len(text)),
{
    assert(text.take(text.len() as int) =~= text);
}

/// An offset between characters is a character boundary of the encoding.
pub proof fn lemma_offset_is_boundary(text: Seq<char>, pos: nat)
    requires
        is_char_offset(text, pos),
    ensures
        is_char_boundary(encode_utf8(text), pos as int),
{
    let k = choose|k: int| 0 <= k <= text.len() && pos == byte_len(#[trigger] text.take(k));
    assert(text.take(k) + text.skip(k) =~= text);
    lemma_prefix_is_boundary(text.take(k), text.skip(k));
}

/// The shown body with one more segment is the shown body without it, then
/// some more text.
pub proof fn lemma_body_grows(segments: Seq<SegmentView>, budget: nat) -> (more: Seq<char>)
    requires
        segments.len() > 0,
    ensures
        body_text(segments, budget) == body_text(segments.drop_last(), budget) + more,
        body_source(segments.drop_last()).len() <= budget ==> more == last_shown_text(
            segments,
            budget,
        ),
{
    let before = body_source(segments.drop_last());
    if before.len() <= budget {
        lemma_take_concat(before, segments.last().display(), budget);
        last_shown_text(segments, budget)
    } else {
        assert(body_text(segments, budget) =~= body_text(segments.drop_last(), budget));
        assert(body_text(segments, budget) =~= body_text(segments, budget) + Seq::<char>::empty());
        Seq::empty()
    }
}

/// Within the shown body, the link spans are well formed and each covers what
/// is shown of its link.
pub proof fn lemma_body_spans(segments: Seq<SegmentView>, budget: nat)
    ensures
        spans_well_formed(body_text(segments, budget), link_spans(segments, budget)),
        spans_cover(
            body_text(segments, budget),
            link_spans(segments, budget),
            link_texts(segments, budget),
        ),
    decreases segments.len(),
{
    if segments.len() > 0 {
        let init = segments.drop_last();
        let old_body = body_text(init, budget);
        let old_spans = link_spans(init, budget);
        let old_texts = link_texts(init, budget);
        let body = body_text(segments, budget);
        let spans = link_spans(segments, budget);
        let texts = link_texts(segments, budget);
        lemma_body_spans(init, budget);
        let more = lemma_body_grows(segments, budget);
        lemma_encode_concat(old_body, more);
        assert forall|j: int| 0 <= j < old_spans.len() implies span_covers(
            body,
            #[trigger] old_spans[j],
            old_texts[j],
        ) && is_char_offset(body, old_spans[j].byte_start) && is_char_offset(
            body,
            old_spans[j].byte_end,
        ) by {
            lemma_cover_extends(old_body, more, old_spans[j], old_texts[j]);
            lemma_offset_extends(old_body, more, old_spans[j].byte_start);
            lemma_offset_extends(old_body, more, old_spans[j].byte_end);
        }
        if last_is_shown_link(segments, budget) {
            let before = body_source(init);
            let span = spans.last();
            assert(old_body == before);
            assert(more == last_shown_text(segments, budget));
            assert(span.byte_start == byte_len(old_body));
            assert(span.byte_end == byte_len(body));
            assert(encode_utf8(body).subrange(span.byte_start as int, span.byte_end as int)
                =~= encode_utf8(more));
            lemma_end_is_offset(old_body);
            lemma_offset_extends(old_body, more, byte_len(old_body));
            lemma_end_is_offset(body);
            assert forall|j: int| 0 <= j < spans.len() implies span_covers(
                body,
                #[trigger] spans[j],
                texts[j],
            ) && is_char_offset(body, spans[j].byte_start) && is_char_offset(
                body,
                spans[j].byte_end,
            ) by {
                if j < old_spans.len() {
                    assert(spans[j] == old_spans[j]);
                    assert(texts[j] == old_texts[j]);
                }
            }
            assert forall|j: int, k: int| 0 <= j < k < spans.len() implies (
            #[trigger] spans[j]).byte_end <= (#[trigger] spans[k]).byte_start by {
                assert(spans[j] == old_spans[j]);
                if k < old_spans.len() {
                    assert(spans[k] == old_spans[k]);
                }
            }
        }
    }
}

/// Round trip: in every composed post, the bytes under each span are the
/// UTF-8 encoding of what is shown of the link that the span stands for, and
/// the bytes under the last span are the encoding of the item's link.
pub proof fn lemma_spans_round_trip(
    segments: Seq<SegmentView>,
    budget: nat,
    trailing: Seq<char>,
    item_link: Seq<char>,
)
    ensures
        spans_cover(
            composed(segments, budget, trailing, item_link).text,
            composed(segments, budget, trailing, item_link).annotations,
            covered_texts(segments, budget, item_link),
        ),
        forall|j: int|
            0 <= j < covered_texts(segments, budget, item_link).len() ==> valid_utf8(
                encode_utf8(#[trigger] covered_texts(segments, budget, item_link)[j]),
            ),
{
    let post = composed(segments, budget, trailing, item_link);
    let body = body_text(segments, budget);
    let head = post_head(segments, budget, trailing);
    let inner = link_spans(segments, budget);
    let texts = link_texts(segments, budget);
    let covered = covered_texts(segments, budget, item_link);
    let rest = if is_truncated(segments, budget) {
        ellipsis() + trailing + item_link
    } else {
        trailing + item_link
    };
    assert(post.text =~= body + rest);
    lemma_body_spans(segments, budget);
    lemma_encode_concat(head, item_link);
    assert(encode_utf8(post.text).subrange(byte_len(head) as int, byte_len(post.text) as int)
        =~= encode_utf8(item_link));
    assert forall|j: int| 0 <= j < post.annotations.len() implies span_covers(
        post.text,
        #[trigger] post.annotations[j],
        covered[j],
    ) by {
        if j < inner.len() {
            assert(post.annotations[j] == inner[j]);
            assert(covered[j] == texts[j]);
            lemma_cover_extends(body, rest, inner[j], texts[j]);
        }
    }
    assert forall|j: int| 0 <= j < covered.len() implies valid_utf8(
        encode_utf8(#[trigger] covered[j]),
    ) by {
        encode_utf8_valid_utf8(covered[j]);
    }
}

/// In every composed post the spans lie within the text, start and end
/// between characters, and follow each other without overlap, in the order of
/// the segments they stand for.
pub proof fn lemma_composed_well_formed(
    segments: Seq<SegmentView>,
    budget: nat,
    trailing: Seq<char>,
    item_link: Seq<char>,
)
    ensures
        spans_well_formed(
            composed(segments, budget, trailing, item_link).text,
            composed(segments, budget, trailing, item_link).annotations,
        ),
{
    let post = composed(segments, budget, trailing, item_link);
    let body = body_text(segments, budget);
    let head = post_head(segments, budget, trailing);
    let inner = link_spans(segments, budget);
    let last = trailing_span(head, item_link);
    let rest = if is_truncated(segments, budget) {
        ellipsis() + trailing + item_link
    } else {
        trailing + item_link
    };
    let middle = if is_truncated(segments, budget) {
        ellipsis() + trailing
    } else {
        trailing
    };
    assert(post.text =~= body + rest);
    assert(head =~= body + middle);
    lemma_body_spans(segments, budget);
    lemma_encode_concat(body, rest);
    lemma_encode_concat(body, middle);
    lemma_encode_concat(head, item_link);
    lemma_end_is_offset(head);
    lemma_offset_extends(head, item_link, byte_len(head));
    lemma_end_is_offset(post.text);
    assert forall|j: int| 0 <= j < post.annotations.len() implies (
    #[trigger] post.annotations[j]).byte_start <= post.annotations[j].byte_end <= byte_len(
        post.text,
    ) && is_char_offset(post.text, post.annotations[j].byte_start) && is_char_offset(
        post.text,
        post.annotations[j].byte_end,
    ) by {
        if j < inner.len() {
            assert(post.annotations[j] == inner[j]);
            lemma_offset_extends(body, rest, inner[j].byte_start);
            lemma_offset_extends(body, rest, inner[j].byte_end);
        }
    }
    assert forall|j: int, k: int| 0 <= j < k < post.annotations.len() implies (
    #[trigger] post.annotations[j]).byte_end <= (#[trigger] post.annotations[k]).byte_start by {
        assert(post.annotations[j] == inner[j]);
        if k < inner.len() {
            assert(post.annotations[k] == inner[k]);
        }
    }
}

/// Whether every span starts and ends at a character boundary of the encoded
/// text.
pub open spec fn spans_on_boundaries(text: Seq<char>, spans: Seq<SpanView>) -> bool {
    forall|j: int|
        0 <= j < spans.len() ==> is_char_boundary(
            encode_utf8(text),
            (#[trigger] spans[j]).byte_start as int,
        ) && is_char_boundary(encode_utf8(text), spans[j].byte_end as int)
}

/// Every span of a composed post starts and ends at a character boundary of
/// the encoded text.
pub proof fn lemma_spans_on_boundaries(
    segments: Seq<SegmentView>,
    budget: nat,
    trailing: Seq<char>,
    item_link: Seq<char>,
)
    ensures
        spans_on_boundaries(
            composed(segments, budget, trailing, item_link).text,
            composed(segments, budget, trailing, item_link).annotations,
        ),
{
    let post = composed(segments, budget, trailing, item_link);
    lemma_composed_well_formed(segments, budget, trailing, item_link);
    assert forall|j: int| 0 <= j < post.annotations.len() implies is_char_boundary(
        encode_utf8(post.text),
        (#[trigger] post.annotations[j]).byte_start as int,
    ) && is_char_boundary(encode_utf8(post.text), post.annotations[j].byte_end as int) by {
        lemma_offset_is_boundary(post.text, post.annotations[j].byte_start);
        lemma_offset_is_boundary(post.text, post.annotations[j].byte_end);
    }
}

/// The text of a composed post has at most as many characters as the budget,
/// the ellipsis marker, the trailing text and the item's link together.
pub proof fn lemma_length_bound(
    segments: Seq<SegmentView>,
    budget: nat,
    trailing: Seq<char>,
    item_link: Seq<char>,
)
    ensures
        composed(segments, budget, trailing, item_link).text.len() <= budget + ellipsis().len()
            + trailing.len() + item_link.len(),
        !is_truncated(segments, budget) ==> composed(
            segments,
            budget,
            trailing,
            item_link,
        ).text.len() <= budget + trailing.len() + item_link.len(),
        ellipsis().len() == 4,
{
}

/// Boundary: a plain-text segment with exactly as many characters as the
/// budget has left is shown whole, without the ellipsis marker.
pub proof fn lemma_exact_fit(
    earlier: Seq<SegmentView>,
    text: Seq<char>,
    budget: nat,
    trailing: Seq<char>,
    item_link: Seq<char>,
)
    requires
        body_source(earlier).len() <= budget,
        text.len() == budget - body_source(earlier).len(),
    ensures
        !is_truncated(earlier.push(SegmentView::PlainText { text }), budget),
        composed(earlier.push(SegmentView::PlainText { text }), budget, trailing, item_link).text
            == body_source(earlier) + text + trailing + item_link,
{
    let all = earlier.push(SegmentView::PlainText { text });
    assert(all.drop_last() =~= earlier);
}

/// Boundary: a plain-text segment with one character more than the budget
/// has left is cut by that one character, and the ellipsis marker follows.
pub proof fn lemma_one_over(
    earlier: Seq<SegmentView>,
    text: Seq<char>,
    budget: nat,
    trailing: Seq<char>,
    item_link: Seq<char>,
)
    requires
        body_source(earlier).len() <= budget,
        text.len() == budget - body_source(earlier).len() + 1,
    ensures
        is_truncated(earlier.push(SegmentView::PlainText { text }), budget),
        composed(earlier.push(SegmentView::PlainText { text }), budget, trailing, item_link).text
            == body_source(earlier) + text.drop_last() + ellipsis() + trailing + item_link,
{
    let all = earlier.push(SegmentView::PlainText { text });
    assert(all.drop_last() =~= earlier);
    assert(body_text(all, budget) =~= body_source(earlier) + text.drop_last());
}

/// With the budget that `budget_for` reserves, a post has no more characters
/// than the limit, wherever the limit has room for the trailing text, the
/// item's link and the ellipsis marker.
pub proof fn lemma_post_within_limit(
    segments: Seq<SegmentView>,
    limit: nat,
    trailing: Seq<char>,
    item_link: Seq<char>,
)
    requires
        limit >= trailing.len() + item_link.len() + ellipsis().len(),
    ensures
        composed(
            segments,
            budget_for(limit, trailing, item_link),
            trailing,
            item_link,
        ).text.len() <= limit,
{
}

} // verus!
