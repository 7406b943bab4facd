//! What holds of whole cycles.

use crate::driver::{
    begun, current_decision, next_action, next_state, DriverActionView, DriverEventView,
    DriverPhase, DriverView, SettingsView,
};
use crate::ledger::lemma_last_of_is_suffix;
use crate::rss_ext::FeedItemView;
use vstd::prelude::*;

verus! {

/// The event that tells of an accepted post. The identifiers that it carries
/// do not bear on what the driver does.
pub open spec fn accepted() -> DriverEventView {
    DriverEventView::Posted { cid: Seq::empty(), uri: Seq::empty() }
}

/// Whether an item has both its body and its link.
pub open spec fn has_both(item: FeedItemView) -> bool {
    item.description is Some && item.link is Some
}

/// Whether the identifiers hold the link of every item, among the first
/// `count`, that has both its body and its link.
pub open spec fn holds_feed(ids: Set<Seq<char>>, items: Seq<FeedItemView>, count: nat) -> bool {
    forall|i: int|
        0 <= i < count && i < items.len() && has_both(#[trigger] items[i]) ==> ids.contains(
            items[i].link->0,
        )
}

/// The driver at the end of a cycle in which every post is accepted: it is
/// told to proceed until no item remains or the cycle is given up, and told
/// of an accepted post whenever it waits for an outcome.
pub open spec fn after_cycle(state: DriverView) -> DriverView
    decreases state.remaining,
{
    if state.phase != DriverPhase::Ready {
        state
    } else if state.remaining == 0 {
        next_state(state, DriverEventView::Proceed)
    } else {
        let moved = next_state(state, DriverEventView::Proceed);
        if moved.phase == DriverPhase::Awaiting {
            after_cycle(next_state(moved, accepted()))
        } else {
            after_cycle(moved)
        }
    }
}

/// The links of the posts that are submitted in such a cycle, in the order
/// of their submission.
pub open spec fn submissions(state: DriverView) -> Seq<Seq<char>>
    decreases state.remaining,
{
    if state.phase != DriverPhase::Ready || state.remaining == 0 {
        Seq::empty()
    } else {
        let moved = next_state(state, DriverEventView::Proceed);
        if moved.phase == DriverPhase::Awaiting {
            seq![moved.awaiting] + submissions(next_state(moved, accepted()))
        } else {
            submissions(moved)
        }
    }
}

/// A cycle that is over, or was given up, stays as it is: whatever the
/// driver is told, nothing changes and nothing is asked for.
pub proof fn lemma_ended_cycle_stays(state: DriverView, event: DriverEventView)
    requires
        state.phase == DriverPhase::Done || state.phase == DriverPhase::Aborted,
    ensures
        next_state(state, event) == state,
        next_action(state, event) == DriverActionView::Unexpected,
{
}

/// A refused post leaves the ledger as it is: what was recorded for earlier
/// posts of the cycle stays recorded.
pub proof fn lemma_refused_post_keeps_ledger(state: DriverView, message: Seq<char>)
    ensures
        next_state(state, DriverEventView::PostFailed { message }).ledger == state.ledger,
{
}

/// The ledger changes only by what is recorded for an accepted post and by
/// the end of the cycle; the lines read and the width of the ledger never
/// change.
pub proof fn lemma_ledger_only_grows(state: DriverView, event: DriverEventView)
    ensures
        next_state(state, event).ledger.loaded == state.ledger.loaded,
        next_state(state, event).ledger.max_retained == state.ledger.max_retained,
        next_state(state, event).ledger.recorded == state.ledger.recorded || (state.phase
            == DriverPhase::Awaiting && event is Posted && next_state(
            state,
            event,
        ).ledger.recorded == state.ledger.recorded.push(state.awaiting)),
{
}

/// In a dry run a ready driver asks for no submission and for no rewrite,
/// and never comes to wait for an outcome.
pub proof fn lemma_dry_run_asks_for_nothing(state: DriverView, event: DriverEventView)
    requires
        state.settings.dry_run,
        state.phase == DriverPhase::Ready,
    ensures
        !(next_action(state, event) is Rewrite),
        !(next_action(state, event) is Record),
        next_action(state, event) matches DriverActionView::Item { decision } ==> !(decision
            is Submit),
        next_state(state, event).phase != DriverPhase::Awaiting,
        next_state(state, event).ledger == state.ledger,
{
}

/// A dry run submits nothing.
pub proof fn lemma_dry_run_submits_nothing(state: DriverView)
    requires
        state.settings.dry_run,
    ensures
        submissions(state) == Seq::<Seq<char>>::empty(),
        after_cycle(state).ledger == state.ledger,
    decreases state.remaining,
{
    if state.phase == DriverPhase::Ready && state.remaining > 0 {
        let moved = next_state(state, DriverEventView::Proceed);
        assert(!(current_decision(state) is Submit));
        lemma_dry_run_submits_nothing(moved);
    }
}

/// Where the ledger holds the link of every item that remains and has both
/// its body and its link, the cycle submits nothing, comes to its end, and
/// leaves the history of the ledger as it was.
pub proof fn lemma_known_feed_posts_nothing(state: DriverView)
    requires
        state.phase == DriverPhase::Ready,
        state.remaining <= state.items.len(),
        holds_feed(state.ledger.seen(), state.items, state.remaining),
    ensures
        submissions(state) == Seq::<Seq<char>>::empty(),
        after_cycle(state).phase == DriverPhase::Done,
        after_cycle(state).ledger.loaded == state.ledger.loaded,
        after_cycle(state).ledger.recorded == state.ledger.recorded,
        after_cycle(state).ledger.max_retained == state.ledger.max_retained,
    decreases state.remaining,
{
    if state.remaining > 0 {
        let item = state.items[state.remaining - 1];
        let moved = next_state(state, DriverEventView::Proceed);
        assert(has_both(item) ==> state.ledger.seen().contains(item.link->0));
        assert(moved.phase == DriverPhase::Ready);
        assert(moved.ledger == state.ledger);
        lemma_known_feed_posts_nothing(moved);
    }
}

/// A cycle that comes to its end adds to the history of the ledger the links
/// that it submitted, in order, and nothing else. Unless it is a dry run,
/// every item that has both its body and its link is then among what counted
/// as posted before or among what was submitted.
pub proof fn lemma_cycle_records_feed(state: DriverView)
    requires
        state.phase == DriverPhase::Ready,
        state.remaining <= state.items.len(),
        after_cycle(state).phase == DriverPhase::Done,
    ensures
        after_cycle(state).ledger.loaded == state.ledger.loaded,
        after_cycle(state).ledger.max_retained == state.ledger.max_retained,
        after_cycle(state).ledger.recorded == state.ledger.recorded + submissions(state),
        !state.settings.dry_run ==> holds_feed(
            state.ledger.seen().union(submissions(state).to_set()),
            state.items,
            state.remaining,
        ),
    decreases state.remaining,
{
    let known = state.ledger.seen().union(submissions(state).to_set());
    if state.remaining == 0 {
        assert(state.ledger.recorded + submissions(state) =~= state.ledger.recorded);
    } else {
        let last = state.remaining - 1;
        let item = state.items[last];
        let moved = next_state(state, DriverEventView::Proceed);
        if moved.phase == DriverPhase::Awaiting {
            let link = moved.awaiting;
            let resumed = next_state(moved, accepted());
            lemma_cycle_records_feed(resumed);
            let rest = submissions(resumed);
            assert(submissions(state) == seq![link] + rest);
            assert(state.ledger.recorded.push(link) + rest =~= state.ledger.recorded + (seq![link]
                + rest));
            assert(resumed.ledger.seen() == state.ledger.seen());
            assert(link == item.link->0);
            assert((seq![link] + rest)[0] == link);
            if !state.settings.dry_run {
                assert forall|i: int|
                    0 <= i < state.remaining && i < state.items.len() && has_both(
                        #[trigger] state.items[i],
                    ) implies known.contains(state.items[i].link->0) by {
                    if i < last {
                        let id = state.items[i].link->0;
                        if rest.contains(id) {
                            let at = choose|at: int| 0 <= at < rest.len() && rest[at] == id;
                            assert((seq![link] + rest)[at + 1] == id);
                        }
                    }
                }
            }
        } else {
            assert(moved.phase == DriverPhase::Ready);
            lemma_cycle_records_feed(moved);
            assert(submissions(state) == submissions(moved));
            if !state.settings.dry_run {
                assert(has_both(item) ==> state.ledger.seen().contains(item.link->0));
            }
        }
    }
}

/// Idempotence: after a cycle that came to its end and stored what the
/// ledger kept, a second cycle over the same feed submits nothing and stores
/// the same lines again, wherever the lines stored still hold the link of
/// every item of the feed that has both its body and its link.
pub proof fn lemma_second_cycle_posts_nothing(
    lines: Seq<Seq<char>>,
    max_retained: nat,
    items: Seq<FeedItemView>,
    settings: SettingsView,
)
    requires
        !settings.dry_run,
        after_cycle(begun(lines, max_retained, items, settings)).phase == DriverPhase::Done,
        holds_feed(
            after_cycle(begun(lines, max_retained, items, settings)).ledger.retained().to_set(),
            items,
            items.len(),
        ),
    ensures
        ({
            let first = after_cycle(begun(lines, max_retained, items, settings));
            let stored = first.ledger.retained();
            let second = begun(stored, max_retained, items, settings);
            &&& submissions(second) == Seq::<Seq<char>>::empty()
            &&& after_cycle(second).phase == DriverPhase::Done
            &&& after_cycle(second).ledger.retained() == stored
        }),
{
    let start = begun(lines, max_retained, items, settings);
    let first = after_cycle(start);
    let stored = first.ledger.retained();
    let second = begun(stored, max_retained, items, settings);
    lemma_cycle_records_feed(start);
    lemma_known_feed_posts_nothing(second);
    lemma_last_of_is_suffix(first.ledger.known(), max_retained);
    assert(stored + Seq::<Seq<char>>::empty() =~= stored);
}

/// The lines stored after a cycle hold every item of the feed wherever the
/// ledger is wide enough for the lines read and the links submitted
/// together.
pub proof fn lemma_wide_ledger_holds_feed(
    lines: Seq<Seq<char>>,
    max_retained: nat,
    items: Seq<FeedItemView>,
    settings: SettingsView,
)
    requires
        !settings.dry_run,
        after_cycle(begun(lines, max_retained, items, settings)).phase == DriverPhase::Done,
        lines.len() + submissions(begun(lines, max_retained, items, settings)).len()
            <= max_retained,
    ensures
        after_cycle(begun(lines, max_retained, items, settings)).ledger.retained() == lines
            + submissions(begun(lines, max_retained, items, settings)),
        holds_feed(
            after_cycle(begun(lines, max_retained, items, settings)).ledger.retained().to_set(),
            items,
            items.len(),
        ),
{
    let start = begun(lines, max_retained, items, settings);
    let first = after_cycle(start);
    let posted = submissions(start);
    let stored = first.ledger.retained();
    lemma_cycle_records_feed(start);
    assert(Seq::<Seq<char>>::empty() + posted =~= posted);
    assert(stored == lines + posted);
    assert forall|i: int|
        0 <= i < items.len() && has_both(#[trigger] items[i]) implies stored.to_set().contains(
        items[i].link->0,
    ) by {
        let id = items[i].link->0;
        if lines.contains(id) {
            let at = choose|at: int| 0 <= at < lines.len() && lines[at] == id;
            assert(stored[at] == id);
        } else {
            assert(posted.contains(id));
            let at = choose|at: int| 0 <= at < posted.len() && posted[at] == id;
            assert(stored[lines.len() + at] == id);
        }
    }
}

} // verus!
