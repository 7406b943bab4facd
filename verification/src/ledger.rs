//! The record of the items that were already posted.
//!
//! A ledger is read once, as the lines of its backing store, and then grows
//! by one identifier for each item that is posted. It answers whether an
//! identifier was among the lines read, and it keeps the most recent
//! identifiers, up to a fixed number, to be written back when the cycle ends.

use std::collections::VecDeque;
use vstd::hash_set::StringHashSet;
use vstd::prelude::*;

verus! {

/// Where a ledger stands in its cycle.
#[derive(Clone, Copy, Debug, PartialEq, Eq, Structural)]
pub enum LedgerPhase {
    /// Nothing was read yet.
    Uninitialized,
    /// The lines were read; nothing was recorded since.
    Loaded,
    /// At least one identifier was recorded since the lines were read.
    Appending,
    /// The retained identifiers were handed out; the cycle is over.
    Rewritten,
}

/// A ledger as the history that it stands for.
pub struct LedgerView {
    pub phase: LedgerPhase,
    /// How many identifiers are kept at most.
    pub max_retained: nat,
    /// The lines that were read, in the order of the backing store.
    pub loaded: Seq<Seq<char>>,
    /// The identifiers that were recorded since, oldest first.
    pub recorded: Seq<Seq<char>>,
}

/// The last `n` of `ids`, or all of them where there are fewer.
pub open spec fn last_of(ids: Seq<Seq<char>>, n: nat) -> Seq<Seq<char>> {
    if ids.len() <= n {
        ids
    } else {
        ids.skip(ids.len() - n)
    }
}

impl LedgerView {
    /// Every identifier that the ledger has met, oldest first.
    pub open spec fn known(self) -> Seq<Seq<char>> {
        self.loaded + self.recorded
    }

    /// The identifiers that count as posted: those among the lines read.
    pub open spec fn seen(self) -> Set<Seq<char>> {
        self.loaded.to_set()
    }

    /// The identifiers that are kept: the most recent of the known ones,
    /// oldest first.
    pub open spec fn retained(self) -> Seq<Seq<char>> {
        last_of(self.known(), self.max_retained)
    }

    /// Whether identifiers can be recorded and the retained ones handed out.
    pub open spec fn is_open(self) -> bool {
        self.phase == LedgerPhase::Loaded || self.phase == LedgerPhase::Appending
    }
}

/// The characters of each string, in order.
pub open spec fn ids_view(ids: Seq<String>) -> Seq<Seq<char>> {
    ids.map_values(|s: String| s@)
}

/// Keeping the last `n` after each addition keeps the last `n` of all.
pub proof fn lemma_last_of_push(ids: Seq<Seq<char>>, id: Seq<char>, n: nat)
    ensures
        last_of(last_of(ids, n).push(id), n) == last_of(ids.push(id), n),
{
    assert(last_of(last_of(ids, n).push(id), n) =~= last_of(ids.push(id), n));
}

/// What is kept has at most `n` identifiers, and they are the end of `ids`,
/// in the same order.
pub proof fn lemma_last_of_is_suffix(ids: Seq<Seq<char>>, n: nat)
    ensures
        last_of(ids, n).len() <= n,
        last_of(ids, n).len() <= ids.len(),
        last_of(ids, n).len() == if ids.len() <= n { ids.len() } else { n },
        last_of(ids, n) == ids.skip(ids.len() - last_of(ids, n).len()),
{
    assert(ids.skip(0) =~= ids);
}

/// The identifiers among `ids` and `id` are those among `ids` with `id`
/// added.
pub proof fn lemma_to_set_push(ids: Seq<Seq<char>>, id: Seq<char>)
    ensures
        ids.push(id).to_set() == ids.to_set().insert(id),
{
    let more = ids.push(id);
    assert forall|x: Seq<char>| more.to_set().contains(x) <==> ids.to_set().insert(id).contains(
        x,
    ) by {
        if more.contains(x) {
            let at = choose|at: int| 0 <= at < more.len() && more[at] == x;
            if at < ids.len() {
                assert(ids[at] == x);
            }
        }
        if ids.contains(x) {
            let at = choose|at: int| 0 <= at < ids.len() && ids[at] == x;
            assert(more[at] == x);
        }
        if x == id {
            assert(more[ids.len() as int] == x);
        }
    }
    assert(more.to_set() =~= ids.to_set().insert(id));
}

/// The ledger: a membership index over the lines read, and the window of the
/// most recent identifiers.
pub struct Ledger {
    /// The lines read, as a set.
    seen: StringHashSet,
    /// The most recent of the known identifiers, oldest first.
    retained: VecDeque<String>,
    max_retained: usize,
    phase: LedgerPhase,
    loaded: Ghost<Seq<Seq<char>>>,
    recorded: Ghost<Seq<Seq<char>>>,
}

impl View for Ledger {
    type V = LedgerView;

    closed spec fn view(&self) -> LedgerView {
        LedgerView {
            phase: self.phase,
            max_retained: self.max_retained as nat,
            loaded: self.loaded@,
            recorded: self.recorded@,
        }
    }
}

impl Ledger {
    /// Whether the index and the window agree with the history.
    pub closed spec fn well_formed(&self) -> bool {
        &&& self.seen@ == self.loaded@.to_set()
        &&& ids_view(self.retained@) == self@.retained()
        &&& self.phase == LedgerPhase::Uninitialized ==> self.loaded@.len() == 0
            && self.recorded@.len() == 0
    }

    /// A ledger that has read nothing yet and will keep `max_retained`
    /// identifiers at most.
    pub fn new(max_retained: usize) -> (ledger: Ledger)
        ensures
            ledger.well_formed(),
            ledger@ == (LedgerView {
                phase: LedgerPhase::Uninitialized,
                max_retained: max_retained as nat,
                loaded: Seq::empty(),
                recorded: Seq::empty(),
            }),
    {
        let ledger = Ledger {
            seen: StringHashSet::new(),
            retained: VecDeque::new(),
            max_retained,
            phase: LedgerPhase::Uninitialized,
            loaded: Ghost(Seq::empty()),
            recorded: Ghost(Seq::empty()),
        };
        assert(ledger.seen@ =~= Seq::<Seq<char>>::empty().to_set());
        assert(ids_view(ledger.retained@) =~= Seq::empty());
        assert(ledger@.known() =~= Seq::empty());
        ledger
    }

    /// Where the ledger stands in its cycle.
    pub fn phase(&self) -> (phase: LedgerPhase)
        ensures
            phase == self@.phase,
    {
        self.phase
    }

    /// How many identifiers the ledger keeps at most.
    pub fn max_retained(&self) -> (n: usize)
        ensures
            n == self@.max_retained,
    {
        self.max_retained
    }

    /// Reads the lines of the backing store, one identifier each. Every line
    /// counts as posted, however often it occurs; the last `max_retained` of
    /// them are kept.
    pub fn load(&mut self, lines: Vec<String>)
        requires
            old(self).well_formed(),
            old(self)@.phase == LedgerPhase::Uninitialized,
        ensures
            final(self).well_formed(),
            final(self)@ == (LedgerView {
                phase: LedgerPhase::Loaded,
                loaded: ids_view(lines@),
                recorded: Seq::empty(),
                ..old(self)@
            }),
    {
        let ghost all = ids_view(lines@);
        let mut seen = StringHashSet::new();
        let mut window: VecDeque<String> = VecDeque::new();
        let mut i: usize = 0;
        assert(ids_view(window@) =~= last_of(all.take(0), self.max_retained as nat));
        assert(seen@ =~= all.take(0).to_set());
        while i < lines.len()
            invariant
                all == ids_view(lines@),
                i <= lines.len(),
                seen@ == all.take(i as int).to_set(),
                ids_view(window@) == last_of(all.take(i as int), self.max_retained as nat),
            decreases lines.len() - i,
        {
            let ghost before = ids_view(window@);
            let line = lines[i].clone();
            proof {
                lemma_last_of_push(all.take(i as int), line@, self.max_retained as nat);
                lemma_to_set_push(all.take(i as int), line@);
                assert(all.take(i + 1) =~= all.take(i as int).push(line@));
                assert(ids_view(window@.push(line)) =~= before.push(line@));
            }
            let _ = seen.insert(lines[i].clone());
            window.push_back(line);
            if window.len() > self.max_retained {
                let ghost full = window@;
                let _ = window.pop_front();
                assert(ids_view(window@) =~= last_of(ids_view(full), self.max_retained as nat));
            }
            i += 1;
        }
        proof {
            assert(all.take(lines.len() as int) =~= all);
            assert(all + Seq::<Seq<char>>::empty() =~= all);
        }
        self.seen = seen;
        self.retained = window;
        self.phase = LedgerPhase::Loaded;
        self.loaded = Ghost(all);
        self.recorded = Ghost(Seq::empty());
    }

    /// Whether `id` was among the lines read.
    pub fn contains(&self, id: &str) -> (found: bool)
        requires
            self.well_formed(),
        ensures
            found == self@.seen().contains(id@),
    {
        self.seen.contains(id)
    }

    /// Records that the item `id` was posted: it becomes the most recent of
    /// the known identifiers, and the oldest kept one leaves where that makes
    /// one too many. What counts as posted does not change within a cycle.
    pub fn record(&mut self, id: String)
        requires
            old(self).well_formed(),
            old(self)@.is_open(),
        ensures
            final(self).well_formed(),
            final(self)@ == (LedgerView {
                phase: LedgerPhase::Appending,
                recorded: old(self)@.recorded.push(id@),
                ..old(self)@
            }),
    {
        let ghost before = ids_view(self.retained@);
        proof {
            lemma_last_of_push(self@.known(), id@, self.max_retained as nat);
            assert(self@.known().push(id@) =~= self.loaded@ + self.recorded@.push(id@));
            assert(ids_view(self.retained@.push(id)) =~= before.push(id@));
        }
        self.recorded = Ghost(self.recorded@.push(id@));
        self.retained.push_back(id);
        if self.retained.len() > self.max_retained {
            let ghost full = self.retained@;
            let _ = self.retained.pop_front();
            assert(ids_view(self.retained@) =~= last_of(ids_view(full), self.max_retained as nat));
        }
        self.phase = LedgerPhase::Appending;
    }

    /// Ends the cycle and hands out what the backing store is to hold from
    /// now on: the most recent `max_retained` of all known identifiers, oldest
    /// first.
    pub fn rewrite(&mut self) -> (kept: Vec<String>)
        requires
            old(self).well_formed(),
            old(self)@.is_open(),
        ensures
            final(self).well_formed(),
            final(self)@ == (LedgerView { phase: LedgerPhase::Rewritten, ..old(self)@ }),
            ids_view(kept@) == old(self)@.retained(),
    {
        let mut kept: Vec<String> = Vec::new();
        let mut i: usize = 0;
        assert(ids_view(kept@) =~= ids_view(self.retained@).take(0));
        while i < self.retained.len()
            invariant
                i <= self.retained.len(),
                ids_view(kept@) == ids_view(self.retained@).take(i as int),
            decreases self.retained.len() - i,
        {
            let id = self.retained[i].clone();
            proof {
                let window = ids_view(self.retained@);
                assert(ids_view(kept@.push(id)) =~= ids_view(kept@).push(id@));
                assert(window.take(i + 1) =~= window.take(i as int).push(window[i as int]));
            }
            kept.push(id);
            i += 1;
        }
        assert(ids_view(self.retained@).take(i as int) =~= ids_view(self.retained@));
        self.phase = LedgerPhase::Rewritten;
        kept
    }
}

} // verus!
