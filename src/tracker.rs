use vstd::prelude::*;

use crate::hash::ObjectId;
use crate::rewrites::{
    meets_percentage, Action, Change, ChangeKind, CopySource, DiffLineStats, EntryKind, Error,
    Outcome, Rewrites, SourceKind,
};

verus! {

/// A change retained for matching, with its path.
#[derive(Clone, Debug)]
pub struct Item {
    pub change: Change,
    pub location: String,
    /// Set for a copy source that the caller supplied during emission,
    /// beyond the change set.
    pub provided: bool,
}

/// The source found for one destination: the index of the source item,
/// how the two relate, and the line statistics when the match was made by
/// similarity rather than by identical content.
#[derive(Clone, Copy, Debug, PartialEq, Eq)]
pub struct Match {
    pub source: usize,
    pub kind: SourceKind,
    pub diff: Option<DiffLineStats>,
}

/// A change handed to the visitor, with its path.
#[derive(Clone, Debug, PartialEq, Eq)]
pub struct Destination {
    pub change: Change,
    pub location: String,
}

/// Where the content of a destination came from.
#[derive(Clone, Debug, PartialEq, Eq)]
pub struct Source {
    pub kind: SourceKind,
    pub id: ObjectId,
    pub entry_mode: EntryKind,
    pub location: String,
    pub change: Change,
    /// Present when the source was found by similarity.
    pub diff: Option<DiffLineStats>,
}

/// What the caller of [`Tracker::emit`] provides: the visitor of the
/// results, access to content with a similarity scorer, and more copy sources
/// on demand.
pub trait Delegate {
    /// Receives one emitted change and the source found for it.
    fn visit(&mut self, destination: Destination, source: Option<Source>) -> Action;

    /// Loads the contents of both changes and scores how similar the current
    /// one is to the previous one.
    fn diff_stats(&mut self, previous: &Change, current: &Change) -> Result<DiffLineStats, Error>;

    /// Lists copy sources beyond the change set; an empty list is no error.
    fn push_sources(&mut self) -> Result<Vec<(Change, String)>, Error>;
}

/// A delegate together with the record of the calls made to it through
/// this wrapper: every visit with its answer, how often sources were asked
/// for, and whether a lookup or a listing failed.
pub struct Calls<D> {
    pub delegate: D,
    visits: Ghost<Seq<(Destination, Option<Source>, Action)>>,
    asked: Ghost<nat>,
    failure: Ghost<bool>,
}

impl<D: Delegate> Calls<D> {
    /// The wrapped delegate.
    pub closed spec fn inner(&self) -> D {
        self.delegate
    }

    /// Each visit made so far: the change, its source, and the answer.
    pub closed spec fn visited(&self) -> Seq<(Destination, Option<Source>, Action)> {
        self.visits@
    }

    /// How many times sources beyond the change set were asked for.
    pub closed spec fn sources_asked(&self) -> nat {
        self.asked@
    }

    /// Whether a content lookup or a listing of sources has failed.
    pub closed spec fn failed(&self) -> bool {
        self.failure@
    }

    /// Wraps a delegate, with nothing recorded yet.
    pub fn new(delegate: D) -> (r: Calls<D>)
        ensures
            r.inner() == delegate,
            r.visited() == Seq::<(Destination, Option<Source>, Action)>::empty(),
            r.sources_asked() == 0,
            !r.failed(),
    {
        Calls { delegate, visits: Ghost(Seq::empty()), asked: Ghost(0), failure: Ghost(false) }
    }

    /// Hands one emitted change and its source to the delegate.
    pub fn visit(&mut self, destination: Destination, source: Option<Source>) -> (r: Action)
        ensures
            final(self).visited() == old(self).visited().push((destination, source, r)),
            final(self).sources_asked() == old(self).sources_asked(),
            final(self).failed() == old(self).failed(),
    {
        let ghost entry = (destination, source);
        let r = self.delegate.visit(destination, source);
        self.visits = Ghost(self.visits@.push((entry.0, entry.1, r)));
        r
    }

    /// Asks the delegate for the similarity of two changes.
    pub fn diff_stats(&mut self, previous: &Change, current: &Change) -> (r: Result<DiffLineStats, Error>)
        ensures
            final(self).visited() == old(self).visited(),
            final(self).sources_asked() == old(self).sources_asked(),
            final(self).failed() == (old(self).failed() || r is Err),
    {
        let r = self.delegate.diff_stats(previous, current);
        let ghost failed_after = self.failure@ || r is Err;
        self.failure = Ghost(failed_after);
        r
    }

    /// Asks the delegate for sources beyond the change set.
    pub fn push_sources(&mut self) -> (r: Result<Vec<(Change, String)>, Error>)
        ensures
            final(self).visited() == old(self).visited(),
            final(self).sources_asked() == old(self).sources_asked() + 1,
            final(self).failed() == (old(self).failed() || r is Err),
    {
        let r = self.delegate.push_sources();
        self.asked = Ghost(self.asked@ + 1);
        let ghost failed_after = self.failure@ || r is Err;
        self.failure = Ghost(failed_after);
        r
    }
}

/// A destination that matching looks a source up for: a pushed addition.
/// A modification queued while copy detection is on is emitted as a
/// destination, but gets no source: it already existed on both sides, so it
/// serves as a copy source for the additions instead. This is also what the
/// estimate of the limit counts: candidates times unresolved additions.
pub open spec fn is_target(it: Item) -> bool {
    !it.provided && it.change.kind == ChangeKind::Addition
}

/// A pushed deletion, which a rename may consume.
pub open spec fn is_rename_candidate(it: Item) -> bool {
    !it.provided && it.change.kind == ChangeKind::Deletion
}

/// A pushed modification or a supplied source, which copies may reuse.
pub open spec fn is_copy_candidate(it: Item) -> bool {
    it.provided || it.change.kind == ChangeKind::Modification
}

/// Whether an item may still serve as a source of the given kind.
pub open spec fn is_candidate(kind: SourceKind, it: Item, consumed: bool) -> bool {
    match kind {
        SourceKind::Rename => is_rename_candidate(it) && !consumed,
        SourceKind::Copy => is_copy_candidate(it),
    }
}

/// Whether an item is handed to the visitor: every pushed change but the
/// deletions that a rename consumed.
pub open spec fn is_emitted(it: Item, consumed: bool) -> bool {
    !it.provided && !(it.change.kind == ChangeKind::Deletion && consumed)
}

/// The first unconsumed deletion at or after `j` whose content is `id`.
pub open spec fn first_rename_by_id(items: Seq<Item>, consumed: Seq<bool>, id: ObjectId, j: int) -> Option<int>
    decreases items.len() - j,
{
    if j < 0 || j >= items.len() {
        None
    } else if is_rename_candidate(items[j]) && !consumed[j] && items[j].change.id == id {
        Some(j)
    } else {
        first_rename_by_id(items, consumed, id, j + 1)
    }
}

/// The first copy source at or after `j` whose content is `id`.
pub open spec fn first_copy_by_id(items: Seq<Item>, id: ObjectId, j: int) -> Option<int>
    decreases items.len() - j,
{
    if j < 0 || j >= items.len() {
        None
    } else if is_copy_candidate(items[j]) && items[j].change.id == id {
        Some(j)
    } else {
        first_copy_by_id(items, id, j + 1)
    }
}

/// The first candidate of `kind` at or after `j`.
pub open spec fn first_candidate(items: Seq<Item>, consumed: Seq<bool>, kind: SourceKind, j: int) -> Option<int>
    decreases items.len() - j,
{
    if j < 0 || j >= items.len() {
        None
    } else if is_candidate(kind, items[j], consumed[j]) {
        Some(j)
    } else {
        first_candidate(items, consumed, kind, j + 1)
    }
}

/// How far a candidate cursor is from the end of `n` items.
pub open spec fn remaining(cursor: Option<usize>, n: usize) -> int {
    match cursor {
        Some(c) => n - c,
        None => 0,
    }
}

/// The record of similarity checks that a pass returned, empty after an error.
pub open spec fn checks_of(r: Result<Ghost<Map<(int, int), DiffLineStats>>, Error>) -> Map<(int, int), DiffLineStats> {
    match r {
        Ok(checked) => checked@,
        Err(_) => Map::empty(),
    }
}

/// The candidate at `k` was checked for the destination at `d` and fell
/// short of the threshold.
pub open spec fn rejected(checked: Map<(int, int), DiffLineStats>, d: int, k: int, p: u32) -> bool {
    checked.contains_key((d, k)) && !meets_percentage(checked[(d, k)].similarity, p)
}

/// Every candidate before `bound` was checked for `d` and rejected.
pub open spec fn all_rejected_below(
    items: Seq<Item>,
    consumed: Seq<bool>,
    kind: SourceKind,
    checked: Map<(int, int), DiffLineStats>,
    d: int,
    bound: int,
    p: u32,
) -> bool {
    forall|k: int| 0 <= k < bound && #[trigger] is_candidate(kind, items[k], consumed[k]) ==> rejected(checked, d, k, p)
}

/// What a similarity pass did for the destination at `d`: with no source,
/// every candidate was checked and rejected; with a source, its statistics
/// are those the check returned, and every candidate before it was checked
/// and rejected: the source is the first accepted candidate.
pub open spec fn similarity_outcome(
    items: Seq<Item>,
    consumed: Seq<bool>,
    kind: SourceKind,
    checked: Map<(int, int), DiffLineStats>,
    d: int,
    m: Option<Match>,
    p: u32,
) -> bool {
    match m {
        None => all_rejected_below(items, consumed, kind, checked, d, items.len() as int, p),
        Some(m) => {
            &&& checked.contains_key((d, m.source as int))
            &&& m.diff == Some(checked[(d, m.source as int)])
            &&& all_rejected_below(items, consumed, kind, checked, d, m.source as int, p)
        },
    }
}

/// Where an optional index stands among `n` items.
pub open spec fn position_of(o: Option<int>, n: int) -> int {
    match o {
        Some(c) => c,
        None => n,
    }
}

/// Where a candidate cursor stands among `n` items.
pub open spec fn position(cursor: Option<usize>, n: int) -> int {
    match cursor {
        Some(c) => c as int,
        None => n,
    }
}

/// The source handed to the visitor with the item at `i`.
pub open spec fn source_at(items: Seq<Item>, matches: Seq<Option<Match>>, i: int) -> Option<Source> {
    match matches[i] {
        None => None,
        Some(m) => Some(Source {
            kind: m.kind,
            id: items[m.source as int].change.id,
            entry_mode: items[m.source as int].change.entry_mode,
            location: items[m.source as int].location,
            change: items[m.source as int].change,
            diff: m.diff,
        }),
    }
}

/// The pairs the visitor is handed, in order: each emitted change with the
/// source found for it.
pub open spec fn emission_pairs(items: Seq<Item>, matches: Seq<Option<Match>>, consumed: Seq<bool>) -> Seq<(Destination, Option<Source>)> {
    let e = emitted_upto(items, consumed, items.len() as int);
    Seq::new(e.len(), |k: int| (
        Destination { change: items[e[k]].change, location: items[e[k]].location },
        source_at(items, matches, e[k]),
    ))
}

/// Whether resolving needs neither the sources provider nor a similarity
/// check: no source is asked for, since all sources are out of scope or
/// identity matching leaves no destination without a source, and each
/// similarity pass has no threshold or exceeds the limit.
pub open spec fn needs_no_outside_call(items: Seq<Item>, matches: Seq<Option<Match>>, consumed: Seq<bool>, rw: Rewrites) -> bool {
    let n = items.len() as int;
    let id = identity_pass(items, rw.copies is Some, (matches, consumed), n);
    let est_rename = estimated_checks(items, id.0, id.1, SourceKind::Rename);
    let est_copy = estimated_checks(items, id.0, id.1, SourceKind::Copy);
    let all_sources = rw.copies is Some && rw.copies.unwrap().source == CopySource::FromSetOfModifiedFilesAndAllSources;
    &&& !all_sources || count_unresolved(items, id.0, n) == 0
    &&& threshold_of(rw, SourceKind::Rename) is None || (rw.limit != 0 && est_rename > rw.limit)
    &&& threshold_of(rw, SourceKind::Copy) is None || (rw.limit != 0 && est_copy > rw.limit)
}

/// Matching of the destination at `d` by identical content: the first
/// unconsumed deletion is consumed as a rename; failing that, and with copy
/// detection on, the first copy source is taken as a copy.
pub open spec fn identity_step(
    items: Seq<Item>,
    copies: bool,
    st: (Seq<Option<Match>>, Seq<bool>),
    d: int,
) -> (Seq<Option<Match>>, Seq<bool>) {
    if !is_target(items[d]) || st.0[d] is Some {
        st
    } else {
        match first_rename_by_id(items, st.1, items[d].change.id, 0) {
            Some(j) => (
                st.0.update(d, Some(Match { source: j as usize, kind: SourceKind::Rename, diff: None })),
                st.1.update(j, true),
            ),
            None => if copies {
                match first_copy_by_id(items, items[d].change.id, 0) {
                    Some(j) => (
                        st.0.update(d, Some(Match { source: j as usize, kind: SourceKind::Copy, diff: None })),
                        st.1,
                    ),
                    None => st,
                }
            } else {
                st
            },
        }
    }
}

/// Identity matching of the first `n` items, in push order.
pub open spec fn identity_pass(
    items: Seq<Item>,
    copies: bool,
    st: (Seq<Option<Match>>, Seq<bool>),
    n: int,
) -> (Seq<Option<Match>>, Seq<bool>)
    decreases n,
{
    if n <= 0 {
        st
    } else {
        identity_step(items, copies, identity_pass(items, copies, st, n - 1), n - 1)
    }
}

/// The similarity threshold, in percent, that a kind of source is held to.
pub open spec fn threshold_of(rw: Rewrites, kind: SourceKind) -> Option<u32> {
    match kind {
        SourceKind::Rename => rw.percentage,
        SourceKind::Copy => match rw.copies {
            Some(c) => c.percentage,
            None => None,
        },
    }
}

/// Whether `m` is a sound source for the destination at `d`.
pub open spec fn valid_match(items: Seq<Item>, consumed: Seq<bool>, rw: Rewrites, d: int, m: Match) -> bool {
    &&& is_target(items[d])
    &&& 0 <= m.source < items.len()
    &&& match m.kind {
        SourceKind::Rename => is_rename_candidate(items[m.source as int]) && consumed[m.source as int],
        SourceKind::Copy => rw.copies is Some && is_copy_candidate(items[m.source as int]),
    }
    &&& match m.diff {
        None => items[m.source as int].change.id == items[d].change.id,
        Some(stats) => match threshold_of(rw, m.kind) {
            Some(p) => meets_percentage(stats.similarity, p),
            None => false,
        },
    }
}

/// Sound matches throughout, and no deletion renamed twice.
pub open spec fn valid_matching(items: Seq<Item>, matches: Seq<Option<Match>>, consumed: Seq<bool>, rw: Rewrites) -> bool {
    &&& matches.len() == items.len()
    &&& consumed.len() == items.len()
    &&& forall|d: int| 0 <= d < items.len() && (#[trigger] matches[d]) is Some
        ==> valid_match(items, consumed, rw, d, matches[d].unwrap())
    &&& forall|d1: int, d2: int|
        0 <= d1 < items.len() && 0 <= d2 < items.len() && d1 != d2
            && (#[trigger] matches[d1]) is Some && (#[trigger] matches[d2]) is Some
            && matches[d1].unwrap().kind == SourceKind::Rename
            && matches[d2].unwrap().kind == SourceKind::Rename
        ==> matches[d1].unwrap().source != matches[d2].unwrap().source
    &&& forall|j: int| 0 <= j < items.len() && #[trigger] consumed[j] ==> is_rename_candidate(items[j])
}

/// Candidates of a kind among the first `n` items.
pub open spec fn count_candidates(items: Seq<Item>, consumed: Seq<bool>, kind: SourceKind, n: int) -> int
    decreases n,
{
    if n <= 0 {
        0
    } else {
        count_candidates(items, consumed, kind, n - 1) + if is_candidate(kind, items[n - 1], consumed[n - 1]) {
            1int
        } else {
            0int
        }
    }
}

/// Destinations without a source among the first `n` items.
pub open spec fn count_unresolved(items: Seq<Item>, matches: Seq<Option<Match>>, n: int) -> int
    decreases n,
{
    if n <= 0 {
        0
    } else {
        count_unresolved(items, matches, n - 1) + if is_target(items[n - 1]) && matches[n - 1] is None {
            1int
        } else {
            0int
        }
    }
}

/// The similarity checks that a pass of the given kind could need: every
/// candidate against every destination still without a source.
pub open spec fn estimated_checks(items: Seq<Item>, matches: Seq<Option<Match>>, consumed: Seq<bool>, kind: SourceKind) -> int {
    count_candidates(items, consumed, kind, items.len() as int) * count_unresolved(items, matches, items.len() as int)
}

/// A count as `usize` holds it, at most `usize::MAX`.
pub open spec fn saturated(n: int) -> int {
    if n > usize::MAX {
        usize::MAX as int
    } else {
        n
    }
}

/// The indices, in push order, of the first `n` items that are emitted.
pub open spec fn emitted_upto(items: Seq<Item>, consumed: Seq<bool>, n: int) -> Seq<int>
    decreases n,
{
    if n <= 0 {
        Seq::empty()
    } else if is_emitted(items[n - 1], consumed[n - 1]) {
        emitted_upto(items, consumed, n - 1).push(n - 1)
    } else {
        emitted_upto(items, consumed, n - 1)
    }
}

/// What resolving guarantees of the tracker `t` it leaves, from the tracker
/// `o` it started with, and of its result `r`.
pub open spec fn resolution(o: Tracker, t: Tracker, r: Result<Outcome, Error>) -> bool {
    &&& t.wf()
    &&& t.rewrites() == o.rewrites()
    &&& t.items().len() >= o.items().len()
    &&& forall|i: int| 0 <= i < o.items().len() ==> #[trigger] t.items()[i] == o.items()[i]
    &&& forall|i: int| o.items().len() <= i < t.items().len()
        ==> (#[trigger] t.items()[i]).provided
    &&& o.rewrites().copies is None ==> t.items() == o.items()
    &&& ({
        let by_id = identity_pass(
            o.items(),
            o.rewrites().copies is Some,
            (o.matches(), o.consumed()),
            o.items().len() as int,
        ).0;
        forall|d: int| 0 <= d < o.items().len() && (#[trigger] by_id[d]) is Some
            ==> t.matches()[d] == by_id[d]
    })
    &&& ({
        let rw = o.rewrites();
        let n = o.items().len() as int;
        let id = identity_pass(
            o.items(),
            rw.copies is Some,
            (o.matches(), o.consumed()),
            n,
        );
        let est_rename = estimated_checks(o.items(), id.0, id.1, SourceKind::Rename);
        let est_copy = estimated_checks(o.items(), id.0, id.1, SourceKind::Copy);
        let all_sources = rw.copies is Some
            && rw.copies.unwrap().source == CopySource::FromSetOfModifiedFilesAndAllSources;
        let rename_off = threshold_of(rw, SourceKind::Rename) is None || (rw.limit != 0 && est_rename > rw.limit);
        let copy_off = threshold_of(rw, SourceKind::Copy) is None || (rw.limit != 0 && est_copy > rw.limit);
        &&& t.items().len() > o.items().len()
            ==> all_sources && count_unresolved(o.items(), id.0, n) > 0
        &&& (!all_sources || count_unresolved(o.items(), id.0, n) == 0) && rename_off && copy_off ==> {
            &&& r matches Ok(out) && {
                &&& threshold_of(rw, SourceKind::Rename) is Some && rw.limit != 0 && est_rename > rw.limit
                    ==> out.num_similarity_checks_skipped_for_rename_tracking_due_to_limit == saturated(est_rename)
                &&& threshold_of(rw, SourceKind::Copy) is Some && rw.limit != 0 && est_copy > rw.limit
                    ==> out.num_similarity_checks_skipped_for_copy_tracking_due_to_limit == saturated(est_copy)
                &&& out.num_similarity_checks == 0
            }
            &&& t.items() == o.items()
            &&& t.matches() == id.0
            &&& t.consumed() == id.1
        }
        &&& (!all_sources || count_unresolved(o.items(), id.0, n) == 0)
            && threshold_of(rw, SourceKind::Copy) is None
            && threshold_of(rw, SourceKind::Rename) is Some && !(rw.limit != 0 && est_rename > rw.limit)
            && r is Ok ==> exists|checked: Map<(int, int), DiffLineStats>| {
                &&& #[trigger] checked.dom().finite()
                &&& r.unwrap().num_similarity_checks == saturated(checked.dom().len() as int)
                &&& forall|d: int| 0 <= d < n && is_target(o.items()[d]) && (#[trigger] id.0[d]) is None
                    ==> similarity_outcome(o.items(), t.consumed(), SourceKind::Rename, checked,
                        d, t.matches()[d], threshold_of(rw, SourceKind::Rename).unwrap())
            }
        &&& (!all_sources || count_unresolved(o.items(), id.0, n) == 0)
            && threshold_of(rw, SourceKind::Rename) is None
            && threshold_of(rw, SourceKind::Copy) is Some && !(rw.limit != 0 && est_copy > rw.limit)
            && r is Ok ==> exists|checked: Map<(int, int), DiffLineStats>| {
                &&& #[trigger] checked.dom().finite()
                &&& r.unwrap().num_similarity_checks == saturated(checked.dom().len() as int)
                &&& forall|d: int| 0 <= d < n && is_target(o.items()[d]) && (#[trigger] id.0[d]) is None
                    ==> similarity_outcome(o.items(), t.consumed(), SourceKind::Copy, checked,
                        d, t.matches()[d], threshold_of(rw, SourceKind::Copy).unwrap())
            }
        &&& all_sources && count_unresolved(o.items(), id.0, n) > 0
            && threshold_of(rw, SourceKind::Rename) is None && threshold_of(rw, SourceKind::Copy) is None
            && r is Ok ==> t.matches() == identity_pass(
                t.items(),
                true,
                (
                    id.0 + Seq::new((t.items().len() - n) as nat, |i: int| None::<Match>),
                    id.1 + Seq::new((t.items().len() - n) as nat, |i: int| false),
                ),
                t.items().len() as int,
            ).0
    })
    &&& r matches Ok(out) ==> {
        &&& out.options == o.rewrites()
        &&& o.rewrites().limit == 0 || threshold_of(o.rewrites(), SourceKind::Rename) is None
            ==> out.num_similarity_checks_skipped_for_rename_tracking_due_to_limit == 0
        &&& o.rewrites().limit == 0 || threshold_of(o.rewrites(), SourceKind::Copy) is None
            ==> out.num_similarity_checks_skipped_for_copy_tracking_due_to_limit == 0
        &&& threshold_of(o.rewrites(), SourceKind::Rename) is None && threshold_of(o.rewrites(), SourceKind::Copy) is None
            ==> out.num_similarity_checks == 0
    }
}

/// Whether resolving asks for sources beyond the change set: all sources are
/// in scope and identity matching leaves some destination without a source.
pub open spec fn asks_for_sources(o: Tracker) -> bool {
    let rw = o.rewrites();
    let n = o.items().len() as int;
    let id = identity_pass(o.items(), rw.copies is Some, (o.matches(), o.consumed()), n);
    &&& rw.copies is Some
    &&& rw.copies.unwrap().source == CopySource::FromSetOfModifiedFilesAndAllSources
    &&& count_unresolved(o.items(), id.0, n) > 0
}

/// Collects the changes of one tree diff and pairs deletions and
/// modifications with additions as renames and copies.
pub struct Tracker {
    items: Vec<Item>,
    matches: Vec<Option<Match>>,
    consumed: Vec<bool>,
    rewrites: Rewrites,
    emitted: bool,
}

impl Tracker {
    /// The retained changes, in push order, then the supplied sources.
    pub closed spec fn items(&self) -> Seq<Item> {
        self.items@
    }

    /// The source found so far for each item.
    pub closed spec fn matches(&self) -> Seq<Option<Match>> {
        self.matches@
    }

    /// Which deletions a rename consumed.
    pub closed spec fn consumed(&self) -> Seq<bool> {
        self.consumed@
    }

    pub closed spec fn rewrites(&self) -> Rewrites {
        self.rewrites
    }

    /// Whether the batch was emitted already.
    pub closed spec fn emitted(&self) -> bool {
        self.emitted
    }

    pub open spec fn wf(&self) -> bool {
        valid_matching(self.items(), self.matches(), self.consumed(), self.rewrites())
    }

    /// Nothing matched yet and no source supplied: the state of the push phase.
    pub open spec fn is_fresh(&self) -> bool {
        &&& self.matches().len() == self.items().len()
        &&& self.consumed().len() == self.items().len()
        &&& forall|i: int| 0 <= i < self.items().len() ==> (#[trigger] self.matches()[i]) is None
        &&& forall|i: int| 0 <= i < self.items().len() ==> !(#[trigger] self.consumed()[i])
        &&& forall|i: int| 0 <= i < self.items().len() ==> !(#[trigger] self.items()[i]).provided
        &&& !self.emitted()
    }

    /// A tracker with nothing pushed.
    pub fn new(rewrites: Rewrites) -> (r: Tracker)
        ensures
            r.items().len() == 0,
            r.rewrites() == rewrites,
            r.wf(),
            r.is_fresh(),
    {
        Tracker { items: Vec::new(), matches: Vec::new(), consumed: Vec::new(), rewrites, emitted: false }
    }

    /// Retains a change for matching and returns `None`, or hands it back
    /// when it takes no part in matching: a modification while copy detection
    /// is off.
    pub fn try_push_change(&mut self, change: Change, location: String) -> (r: Option<Change>)
        requires
            old(self).wf(),
            old(self).is_fresh(),
        ensures
            final(self).wf(),
            final(self).is_fresh(),
            final(self).rewrites() == old(self).rewrites(),
            change.kind == ChangeKind::Modification && old(self).rewrites().copies is None ==> {
                &&& r == Some(change)
                &&& final(self).items() == old(self).items()
            },
            !(change.kind == ChangeKind::Modification && old(self).rewrites().copies is None) ==> {
                &&& r is None
                &&& final(self).items() == old(self).items().push(Item { change, location, provided: false })
            },
    {
        if change.kind == ChangeKind::Modification && self.rewrites.copies.is_none() {
            return Some(change);
        }
        self.items.push(Item { change, location, provided: false });
        self.matches.push(None);
        self.consumed.push(false);
        None
    }

    fn is_target_at(&self, i: usize) -> (r: bool)
        requires
            i < self.items().len(),
        ensures
            r == is_target(self.items()[i as int]),
    {
        !self.items[i].provided && self.items[i].change.kind == ChangeKind::Addition
    }

    fn is_candidate_at(&self, kind: SourceKind, j: usize) -> (r: bool)
        requires
            j < self.items().len(),
            self.consumed().len() == self.items().len(),
        ensures
            r == is_candidate(kind, self.items()[j as int], self.consumed()[j as int]),
    {
        let it = &self.items[j];
        match kind {
            SourceKind::Rename => !it.provided && it.change.kind == ChangeKind::Deletion && !self.consumed[j],
            SourceKind::Copy => it.provided || it.change.kind == ChangeKind::Modification,
        }
    }

    /// The first unconsumed deletion whose content is `id`.
    pub fn find_rename_by_id(&self, id: ObjectId) -> (r: Option<usize>)
        requires
            self.wf(),
        ensures
            match r {
                Some(j) => first_rename_by_id(self.items(), self.consumed(), id, 0) == Some(j as int),
                None => first_rename_by_id(self.items(), self.consumed(), id, 0) is None,
            },
    {
        let n = self.items.len();
        let mut j: usize = 0;
        while j < n
            invariant
                n == self.items().len(),
                self.wf(),
                j <= n,
                first_rename_by_id(self.items(), self.consumed(), id, 0)
                    == first_rename_by_id(self.items(), self.consumed(), id, j as int),
            decreases n - j,
        {
            if self.is_candidate_at(SourceKind::Rename, j) && self.items[j].change.id == id {
                return Some(j);
            }
            j += 1;
        }
        None
    }

    /// The first copy source whose content is `id`.
    pub fn find_copy_by_id(&self, id: ObjectId) -> (r: Option<usize>)
        requires
            self.wf(),
        ensures
            match r {
                Some(j) => first_copy_by_id(self.items(), id, 0) == Some(j as int),
                None => first_copy_by_id(self.items(), id, 0) is None,
            },
    {
        let n = self.items.len();
        let mut j: usize = 0;
        while j < n
            invariant
                n == self.items().len(),
                self.wf(),
                j <= n,
                first_copy_by_id(self.items(), id, 0) == first_copy_by_id(self.items(), id, j as int),
            decreases n - j,
        {
            if self.is_candidate_at(SourceKind::Copy, j) && self.items[j].change.id == id {
                return Some(j);
            }
            j += 1;
        }
        None
    }

    /// Matches every destination without a source by identical content, in
    /// push order.
    pub fn match_by_id(&mut self)
        requires
            old(self).wf(),
        ensures
            final(self).wf(),
            final(self).items() == old(self).items(),
            final(self).rewrites() == old(self).rewrites(),
            (final(self).matches(), final(self).consumed()) == identity_pass(
                old(self).items(),
                old(self).rewrites().copies is Some,
                (old(self).matches(), old(self).consumed()),
                old(self).items().len() as int,
            ),
            forall|d: int| 0 <= d < old(self).items().len() && (#[trigger] old(self).matches()[d]) is Some
                ==> final(self).matches()[d] == old(self).matches()[d],
    {
        let n = self.items.len();
        let copies = self.rewrites.copies.is_some();
        let ghost items = self.items();
        let ghost start = (self.matches(), self.consumed());
        let mut d: usize = 0;
        while d < n
            invariant
                n == self.items().len(),
                items == self.items(),
                copies == (self.rewrites().copies is Some),
                self.rewrites() == old(self).rewrites(),
                start == (old(self).matches(), old(self).consumed()),
                self.wf(),
                d <= n,
                (self.matches(), self.consumed()) == identity_pass(items, copies, start, d as int),
                forall|x: int| 0 <= x < n && (#[trigger] old(self).matches()[x]) is Some
                    ==> self.matches()[x] == old(self).matches()[x],
            decreases n - d,
        {
            let ghost before = (self.matches(), self.consumed());
            if self.is_target_at(d) && self.matches[d].is_none() {
                let id = self.items[d].change.id;
                match self.find_rename_by_id(id) {
                    Some(j) => {
                        proof {
                            lemma_first_rename_is_candidate(self.items(), self.consumed(), id, 0);
                        }
                        self.matches[d] = Some(Match { source: j, kind: SourceKind::Rename, diff: None });
                        self.consumed[j] = true;
                    },
                    None => {
                        if copies {
                            match self.find_copy_by_id(id) {
                                Some(j) => {
                                    proof {
                                        lemma_first_copy_is_candidate(items, id, 0);
                                    }
                                    self.matches[d] = Some(Match { source: j, kind: SourceKind::Copy, diff: None });
                                },
                                None => {},
                            }
                        }
                    },
                }
            }
            assert((self.matches(), self.consumed()) == identity_step(items, copies, before, d as int));
            d += 1;
        }
    }

    /// Candidates of a kind, as [`estimated_checks`] counts them.
    fn count_candidates_exec(&self, kind: SourceKind) -> (r: usize)
        requires
            self.wf(),
        ensures
            r == count_candidates(self.items(), self.consumed(), kind, self.items().len() as int),
    {
        let n = self.items.len();
        let mut count: usize = 0;
        let mut j: usize = 0;
        while j < n
            invariant
                n == self.items().len(),
                self.wf(),
                j <= n,
                count <= j,
                count == count_candidates(self.items(), self.consumed(), kind, j as int),
            decreases n - j,
        {
            if self.is_candidate_at(kind, j) {
                count += 1;
            }
            j += 1;
        }
        count
    }

    /// Destinations without a source, as [`estimated_checks`] counts them.
    fn count_unresolved_exec(&self) -> (r: usize)
        requires
            self.wf(),
        ensures
            r == count_unresolved(self.items(), self.matches(), self.items().len() as int),
    {
        let n = self.items.len();
        let mut count: usize = 0;
        let mut j: usize = 0;
        while j < n
            invariant
                n == self.items().len(),
                self.wf(),
                j <= n,
                count <= j,
                count == count_unresolved(self.items(), self.matches(), j as int),
            decreases n - j,
        {
            if self.is_target_at(j) && self.matches[j].is_none() {
                count += 1;
            }
            j += 1;
        }
        count
    }

    /// The similarity checks that a pass of the given kind could need now.
    pub fn estimate_checks(&self, kind: SourceKind) -> (r: u128)
        requires
            self.wf(),
        ensures
            r == estimated_checks(self.items(), self.matches(), self.consumed(), kind),
    {
        let a = self.count_candidates_exec(kind) as u128;
        let b = self.count_unresolved_exec() as u128;
        assert(a * b <= 0xffff_ffff_ffff_ffffu128 * 0xffff_ffff_ffff_ffffu128) by (nonlinear_arith)
            requires
                a <= 0xffff_ffff_ffff_ffffu128,
                b <= 0xffff_ffff_ffff_ffffu128,
        ;
        a * b
    }

    /// The first candidate of `kind` at or after `from`, in push order.
    pub fn next_candidate(&self, kind: SourceKind, from: usize) -> (r: Option<usize>)
        requires
            self.wf(),
        ensures
            match r {
                Some(j) => first_candidate(self.items(), self.consumed(), kind, from as int) == Some(j as int),
                None => first_candidate(self.items(), self.consumed(), kind, from as int) is None,
            },
            r matches Some(j) ==> from <= j < self.items().len()
                && is_candidate(kind, self.items()[j as int], self.consumed()[j as int]),
    {
        proof {
            lemma_first_candidate_is_candidate(self.items(), self.consumed(), kind, from as int);
        }
        let n = self.items.len();
        let mut j: usize = from;
        while j < n
            invariant
                n == self.items().len(),
                self.wf(),
                from <= j,
                first_candidate(self.items(), self.consumed(), kind, from as int)
                    == first_candidate(self.items(), self.consumed(), kind, j as int),
            decreases n - j,
        {
            if self.is_candidate_at(kind, j) {
                return Some(j);
            }
            j += 1;
        }
        None
    }

    /// Decides on one similarity check of the candidate at `j` for the
    /// destination at `d`: the candidate is accepted when the similarity of
    /// `stats` reaches the threshold of `kind`, and then becomes the source of
    /// `d`, consumed if it is a rename.
    pub fn record_similarity(&mut self, kind: SourceKind, d: usize, j: usize, stats: DiffLineStats) -> (r: bool)
        requires
            old(self).wf(),
            d < old(self).items().len(),
            j < old(self).items().len(),
            is_target(old(self).items()[d as int]),
            old(self).matches()[d as int] is None,
            is_candidate(kind, old(self).items()[j as int], old(self).consumed()[j as int]),
            threshold_of(old(self).rewrites(), kind) is Some,
        ensures
            final(self).wf(),
            final(self).items() == old(self).items(),
            final(self).rewrites() == old(self).rewrites(),
            r == meets_percentage(stats.similarity, threshold_of(old(self).rewrites(), kind).unwrap()),
            r ==> final(self).matches() == old(self).matches().update(
                d as int,
                Some(Match { source: j, kind, diff: Some(stats) }),
            ),
            r && kind == SourceKind::Rename ==> final(self).consumed() == old(self).consumed().update(j as int, true),
            !(r && kind == SourceKind::Rename) ==> final(self).consumed() == old(self).consumed(),
            !r ==> final(self).matches() == old(self).matches(),
    {
        let p = match kind {
            SourceKind::Rename => self.rewrites.percentage.unwrap(),
            SourceKind::Copy => self.rewrites.copies.unwrap().percentage.unwrap(),
        };
        if !stats.similarity.meets(p) {
            return false;
        }
        match kind {
            SourceKind::Rename => {
                self.consumed[j] = true;
            },
            SourceKind::Copy => {},
        }
        self.matches[d] = Some(Match { source: j, kind, diff: Some(stats) });
        true
    }

    /// One similarity check of the candidate at `j` for the destination at
    /// `d`, given the statistics the scorer returned: the check is counted,
    /// the candidate is accepted or not as [`Tracker::record_similarity`]
    /// decides, and the next candidate to check is returned: none once one
    /// is accepted, else the first candidate after `j`.
    pub fn similarity_step(
        &mut self,
        kind: SourceKind,
        d: usize,
        j: usize,
        stats: DiffLineStats,
        out: &mut Outcome,
    ) -> (r: Option<usize>)
        requires
            old(self).wf(),
            d < old(self).items().len(),
            j < old(self).items().len(),
            is_target(old(self).items()[d as int]),
            old(self).matches()[d as int] is None,
            is_candidate(kind, old(self).items()[j as int], old(self).consumed()[j as int]),
            threshold_of(old(self).rewrites(), kind) is Some,
        ensures
            final(self).wf(),
            final(self).items() == old(self).items(),
            final(self).rewrites() == old(self).rewrites(),
            final(out).options == old(out).options,
            final(out).num_similarity_checks == saturated(old(out).num_similarity_checks + 1),
            final(out).num_similarity_checks_skipped_for_rename_tracking_due_to_limit
                == old(out).num_similarity_checks_skipped_for_rename_tracking_due_to_limit,
            final(out).num_similarity_checks_skipped_for_copy_tracking_due_to_limit
                == old(out).num_similarity_checks_skipped_for_copy_tracking_due_to_limit,
            ({
                let accepted = meets_percentage(stats.similarity, threshold_of(old(self).rewrites(), kind).unwrap());
                &&& accepted ==> {
                    &&& r is None
                    &&& final(self).matches() == old(self).matches().update(
                        d as int,
                        Some(Match { source: j, kind, diff: Some(stats) }),
                    )
                }
                &&& accepted && kind == SourceKind::Rename ==> final(self).consumed()
                    == old(self).consumed().update(j as int, true)
                &&& !(accepted && kind == SourceKind::Rename) ==> final(self).consumed() == old(self).consumed()
                &&& !accepted ==> {
                    &&& final(self).matches() == old(self).matches()
                    &&& position(r, old(self).items().len() as int) == position_of(
                        first_candidate(old(self).items(), old(self).consumed(), kind, j + 1),
                        old(self).items().len() as int,
                    )
                }
            }),
            r matches Some(c) ==> j < c < old(self).items().len()
                && is_candidate(kind, old(self).items()[c as int], final(self).consumed()[c as int]),
    {
        if out.num_similarity_checks < usize::MAX {
            out.num_similarity_checks = out.num_similarity_checks + 1;
        }
        if self.record_similarity(kind, d, j, stats) {
            None
        } else if j < self.items.len() - 1 {
            self.next_candidate(kind, j + 1)
        } else {
            None
        }
    }

    /// Matches each destination still without a source against the candidates
    /// of `kind` by similarity: both in push order, the first candidate whose
    /// similarity reaches the threshold of `kind` wins, and a rename consumes
    /// its deletion. Does nothing where `kind` has no threshold. Where the
    /// limit is set and the estimated checks exceed it, no check is made at
    /// all and the estimate is recorded as skipped.
    pub fn match_by_similarity<D: Delegate>(
        &mut self,
        kind: SourceKind,
        delegate: &mut Calls<D>,
        out: &mut Outcome,
    ) -> (r: Result<Ghost<Map<(int, int), DiffLineStats>>, Error>)
        requires
            old(self).wf(),
        ensures
            final(delegate).visited() == old(delegate).visited(),
            final(delegate).sources_asked() == old(delegate).sources_asked(),
            final(delegate).failed() == (old(delegate).failed() || r is Err),
            final(self).wf(),
            final(self).items() == old(self).items(),
            final(self).rewrites() == old(self).rewrites(),
            final(out).options == old(out).options,
            final(out).num_similarity_checks >= old(out).num_similarity_checks,
            forall|d: int| 0 <= d < old(self).items().len() && (#[trigger] old(self).matches()[d]) is Some
                ==> final(self).matches()[d] == old(self).matches()[d],
            forall|d: int| 0 <= d < old(self).items().len() && (#[trigger] final(self).matches()[d]) is Some
                && old(self).matches()[d] is None
                ==> final(self).matches()[d].unwrap().kind == kind
                    && final(self).matches()[d].unwrap().diff is Some,
            r matches Ok(checked) ==> {
                &&& checked@.dom().finite()
                &&& final(out).num_similarity_checks == saturated(
                    old(out).num_similarity_checks + checked@.dom().len())
                &&& forall|pr: (int, int)| #[trigger] checked@.contains_key(pr) ==> {
                    &&& 0 <= pr.0 < old(self).items().len()
                    &&& is_target(old(self).items()[pr.0])
                    &&& old(self).matches()[pr.0] is None
                    &&& 0 <= pr.1 < old(self).items().len()
                }
            },
            ({
                let limited = threshold_of(old(self).rewrites(), kind) is Some
                    && old(self).rewrites().limit != 0
                    && estimated_checks(old(self).items(), old(self).matches(), old(self).consumed(), kind)
                        > old(self).rewrites().limit;
                let skipped = saturated(
                    estimated_checks(old(self).items(), old(self).matches(), old(self).consumed(), kind));
                &&& threshold_of(old(self).rewrites(), kind) is None || limited ==> {
                    &&& r matches Ok(checked) && checked@ == Map::<(int, int), DiffLineStats>::empty()
                    &&& final(self).matches() == old(self).matches()
                    &&& final(self).consumed() == old(self).consumed()
                    &&& final(out).num_similarity_checks == old(out).num_similarity_checks
                }
                &&& limited ==> match kind {
                    SourceKind::Rename => {
                        &&& final(out).num_similarity_checks_skipped_for_rename_tracking_due_to_limit == skipped
                        &&& final(out).num_similarity_checks_skipped_for_copy_tracking_due_to_limit
                            == old(out).num_similarity_checks_skipped_for_copy_tracking_due_to_limit
                    },
                    SourceKind::Copy => {
                        &&& final(out).num_similarity_checks_skipped_for_copy_tracking_due_to_limit == skipped
                        &&& final(out).num_similarity_checks_skipped_for_rename_tracking_due_to_limit
                            == old(out).num_similarity_checks_skipped_for_rename_tracking_due_to_limit
                    },
                }
                &&& threshold_of(old(self).rewrites(), kind) is Some && !limited && r is Ok ==> forall|d: int|
                    0 <= d < old(self).items().len() && is_target(old(self).items()[d])
                        && (#[trigger] old(self).matches()[d]) is None
                    ==> similarity_outcome(old(self).items(), final(self).consumed(), kind, checks_of(r), d,
                        final(self).matches()[d], threshold_of(old(self).rewrites(), kind).unwrap())
                &&& !limited ==> {
                    &&& final(out).num_similarity_checks_skipped_for_rename_tracking_due_to_limit
                        == old(out).num_similarity_checks_skipped_for_rename_tracking_due_to_limit
                    &&& final(out).num_similarity_checks_skipped_for_copy_tracking_due_to_limit
                        == old(out).num_similarity_checks_skipped_for_copy_tracking_due_to_limit
                }
            }),
    {
        let percentage = match kind {
            SourceKind::Rename => self.rewrites.percentage,
            SourceKind::Copy => match self.rewrites.copies {
                Some(c) => c.percentage,
                None => None,
            },
        };
        let p = match percentage {
            Some(p) => p,
            None => return Ok(Ghost(Map::empty())),
        };
        if self.rewrites.limit != 0 {
            let estimate = self.estimate_checks(kind);
            if estimate > self.rewrites.limit as u128 {
                let skipped: usize = if estimate > usize::MAX as u128 {
                    usize::MAX
                } else {
                    estimate as usize
                };
                match kind {
                    SourceKind::Rename => {
                        out.num_similarity_checks_skipped_for_rename_tracking_due_to_limit = skipped;
                    },
                    SourceKind::Copy => {
                        out.num_similarity_checks_skipped_for_copy_tracking_due_to_limit = skipped;
                    },
                }
                return Ok(Ghost(Map::empty()));
            }
        }
        let n = self.items.len();
        let ghost old_matches = self.matches();
        let ghost old_out = *out;
        let ghost mut checked: Map<(int, int), DiffLineStats> = Map::empty();
        let mut d: usize = 0;
        while d < n
            invariant
                n == self.items().len(),
                self.items() == old(self).items(),
                self.rewrites() == old(self).rewrites(),
                old_matches == old(self).matches(),
                old_out == *old(out),
                delegate.visited() == old(delegate).visited(),
                delegate.sources_asked() == old(delegate).sources_asked(),
                delegate.failed() == old(delegate).failed(),
                threshold_of(self.rewrites(), kind) == Some(p),
                !(old(self).rewrites().limit != 0
                    && estimated_checks(old(self).items(), old(self).matches(), old(self).consumed(), kind)
                        > old(self).rewrites().limit),
                self.wf(),
                d <= n,
                out.options == old(out).options,
                out.num_similarity_checks_skipped_for_rename_tracking_due_to_limit
                    == old(out).num_similarity_checks_skipped_for_rename_tracking_due_to_limit,
                out.num_similarity_checks_skipped_for_copy_tracking_due_to_limit
                    == old(out).num_similarity_checks_skipped_for_copy_tracking_due_to_limit,
                old_matches.len() == n,
                old(self).consumed().len() == n,
                forall|k: int| 0 <= k < n && #[trigger] old(self).consumed()[k] ==> self.consumed()[k],
                forall|x: int| d <= x < n ==> #[trigger] self.matches()[x] == old_matches[x],
                forall|x: int| 0 <= x < n && (#[trigger] old_matches[x]) is Some
                    ==> self.matches()[x] == old_matches[x],
                forall|x: int| 0 <= x < n && (#[trigger] self.matches()[x]) is Some && old_matches[x] is None
                    ==> self.matches()[x].unwrap().kind == kind && self.matches()[x].unwrap().diff is Some,
                checked.dom().finite(),
                out.num_similarity_checks == saturated(old_out.num_similarity_checks + checked.dom().len()),
                forall|pr: (int, int)| #[trigger] checked.contains_key(pr) ==> {
                    &&& 0 <= pr.0 < d
                    &&& is_target(self.items()[pr.0])
                    &&& old_matches[pr.0] is None
                    &&& 0 <= pr.1 < n
                },
                forall|x: int| 0 <= x < d && is_target(self.items()[x]) && (#[trigger] old_matches[x]) is None
                    ==> similarity_outcome(self.items(), self.consumed(), kind, checked, x, self.matches()[x], p),
            decreases n - d,
        {
            if self.is_target_at(d) && self.matches[d].is_none() {
                let mut cursor = self.next_candidate(kind, 0);
                proof {
                    lemma_first_candidate_skips(self.items(), self.consumed(), kind, 0);
                }
                let mut found = false;
                while !found && cursor.is_some()
                    invariant
                        n == self.items().len(),
                        self.items() == old(self).items(),
                        self.rewrites() == old(self).rewrites(),
                        old_matches == old(self).matches(),
                        old_out == *old(out),
                        delegate.visited() == old(delegate).visited(),
                        delegate.sources_asked() == old(delegate).sources_asked(),
                        delegate.failed() == old(delegate).failed(),
                delegate.visited() == old(delegate).visited(),
                delegate.sources_asked() == old(delegate).sources_asked(),
                delegate.failed() == old(delegate).failed(),
                        threshold_of(self.rewrites(), kind) == Some(p),
                        !(old(self).rewrites().limit != 0
                            && estimated_checks(old(self).items(), old(self).matches(), old(self).consumed(), kind)
                                > old(self).rewrites().limit),
                        self.wf(),
                        d < n,
                        is_target(self.items()[d as int]),
                        old_matches[d as int] is None,
                        !found ==> self.matches()[d as int] is None,
                        found ==> cursor is None,
                        cursor matches Some(c) ==> c < n && is_candidate(kind, self.items()[c as int], self.consumed()[c as int]),
                        out.options == old(out).options,
                        out.num_similarity_checks_skipped_for_rename_tracking_due_to_limit
                            == old(out).num_similarity_checks_skipped_for_rename_tracking_due_to_limit,
                        out.num_similarity_checks_skipped_for_copy_tracking_due_to_limit
                            == old(out).num_similarity_checks_skipped_for_copy_tracking_due_to_limit,
                        old_matches.len() == n,
                        old(self).consumed().len() == n,
                        forall|k: int| 0 <= k < n && #[trigger] old(self).consumed()[k] ==> self.consumed()[k],
                        forall|x: int| d < x < n ==> #[trigger] self.matches()[x] == old_matches[x],
                        forall|x: int| 0 <= x < n && (#[trigger] old_matches[x]) is Some
                            ==> self.matches()[x] == old_matches[x],
                        forall|x: int| 0 <= x < n && (#[trigger] self.matches()[x]) is Some && old_matches[x] is None
                            ==> self.matches()[x].unwrap().kind == kind && self.matches()[x].unwrap().diff is Some,
                        checked.dom().finite(),
                        out.num_similarity_checks == saturated(old_out.num_similarity_checks + checked.dom().len()),
                        forall|pr: (int, int)| #[trigger] checked.contains_key(pr) ==> {
                            &&& 0 <= pr.0 <= d
                            &&& is_target(self.items()[pr.0])
                            &&& old_matches[pr.0] is None
                            &&& 0 <= pr.1 < n
                            &&& (pr.0 == d ==> pr.1 < position(cursor, n as int))
                        },
                        forall|x: int| 0 <= x < d && is_target(self.items()[x]) && (#[trigger] old_matches[x]) is None
                            ==> similarity_outcome(self.items(), self.consumed(), kind, checked, x, self.matches()[x], p),
                        !found ==> all_rejected_below(self.items(), self.consumed(), kind, checked, d as int,
                            position(cursor, n as int), p),
                        found ==> similarity_outcome(self.items(), self.consumed(), kind, checked, d as int,
                            self.matches()[d as int], p),
                    decreases remaining(cursor, n),
                {
                    let j = cursor.unwrap();
                    let stats = match delegate.diff_stats(&self.items[j].change, &self.items[d].change) {
                        Ok(stats) => stats,
                        Err(e) => return Err(e),
                    };
                    let ghost before_consumed = self.consumed();
                    let ghost before_checked = checked;
                    proof {
                        assert(!checked.contains_key((d as int, j as int)));
                        checked = checked.insert((d as int, j as int), stats);
                        assert(checked.dom() =~= before_checked.dom().insert((d as int, j as int)));
                    }
                    cursor = self.similarity_step(kind, d, j, stats, out);
                    proof {
                        let consumed = self.consumed();
                        assert forall|k: int| 0 <= k < n && #[trigger] before_consumed[k] implies consumed[k] by {}
                        assert forall|k: int| #[trigger] before_checked.contains_key((d as int, k))
                            implies checked.contains_key((d as int, k)) && checked[(d as int, k)] == before_checked[(d as int, k)] by {}
                        assert forall|x: int| 0 <= x < d && is_target(self.items()[x]) && (#[trigger] old_matches[x]) is None
                            implies similarity_outcome(self.items(), consumed, kind, checked, x, self.matches()[x], p) by {
                            assert forall|k: int| #[trigger] before_checked.contains_key((x, k))
                                implies checked.contains_key((x, k)) && checked[(x, k)] == before_checked[(x, k)] by {}
                            lemma_outcome_kept(self.items(), before_consumed, consumed, kind, before_checked, checked, x,
                                self.matches()[x], p);
                        }
                        if self.matches()[d as int] is Some {
                            assert(all_rejected_below(self.items(), consumed, kind, checked, d as int, j as int, p)) by {
                                assert forall|k: int| 0 <= k < j && #[trigger] is_candidate(kind, self.items()[k], consumed[k])
                                    implies rejected(checked, d as int, k, p) by {
                                    assert(is_candidate(kind, self.items()[k], before_consumed[k]));
                                }
                            }
                        } else {
                            lemma_first_candidate_skips(self.items(), before_consumed, kind, j + 1);
                            assert forall|k: int| 0 <= k < position(cursor, n as int)
                                && #[trigger] is_candidate(kind, self.items()[k], consumed[k])
                                implies rejected(checked, d as int, k, p) by {
                                if k < j {
                                    assert(is_candidate(kind, self.items()[k], before_consumed[k]));
                                } else if k > j {
                                    assert(!is_candidate(kind, self.items()[k], before_consumed[k]));
                                }
                            }
                        }
                    }
                    if self.matches[d].is_some() {
                        found = true;
                    }
                }
            }
            d += 1;
        }
        Ok(Ghost(checked))
    }

    /// Appends sources supplied by the caller as copy candidates.
    fn push_provided(&mut self, extra: &Vec<(Change, String)>)
        requires
            old(self).wf(),
        ensures
            final(self).wf(),
            final(self).rewrites() == old(self).rewrites(),
            final(self).items().len() == old(self).items().len() + extra@.len(),
            forall|i: int| 0 <= i < old(self).items().len() ==> #[trigger] final(self).items()[i] == old(self).items()[i],
            forall|i: int| 0 <= i < old(self).items().len() ==> #[trigger] final(self).matches()[i] == old(self).matches()[i],
            forall|i: int| 0 <= i < old(self).items().len() ==> #[trigger] final(self).consumed()[i] == old(self).consumed()[i],
            forall|i: int| old(self).items().len() <= i < final(self).items().len() ==> {
                &&& (#[trigger] final(self).items()[i]).provided
                &&& final(self).items()[i].change == extra@[i - old(self).items().len()].0
                &&& final(self).items()[i].location == extra@[i - old(self).items().len()].1
                &&& final(self).matches()[i] is None
                &&& !final(self).consumed()[i]
            },
    {
        let ghost n0 = self.items().len();
        let mut k: usize = 0;
        while k < extra.len()
            invariant
                self.wf(),
                self.rewrites() == old(self).rewrites(),
                n0 == old(self).items().len(),
                k <= extra@.len(),
                self.items().len() == n0 + k,
                forall|i: int| 0 <= i < n0 ==> #[trigger] self.items()[i] == old(self).items()[i],
                forall|i: int| 0 <= i < n0 ==> #[trigger] self.matches()[i] == old(self).matches()[i],
                forall|i: int| 0 <= i < n0 ==> #[trigger] self.consumed()[i] == old(self).consumed()[i],
                forall|i: int| n0 <= i < self.items().len() ==> {
                    &&& (#[trigger] self.items()[i]).provided
                    &&& self.items()[i].change == extra@[i - n0].0
                    &&& self.items()[i].location == extra@[i - n0].1
                    &&& self.matches()[i] is None
                    &&& !self.consumed()[i]
                },
            decreases extra@.len() - k,
        {
            let change = extra[k].0;
            let location = extra[k].1.clone();
            let ghost before_items = self.items();
            let ghost before_matches = self.matches();
            let ghost before_consumed = self.consumed();
            self.items.push(Item { change, location, provided: true });
            self.matches.push(None);
            self.consumed.push(false);
            assert forall|d: int| 0 <= d < self.items().len() && (#[trigger] self.matches()[d]) is Some
                implies valid_match(self.items(), self.consumed(), self.rewrites(), d, self.matches()[d].unwrap()) by {
                assert(before_matches[d] is Some);
                assert(valid_match(before_items, before_consumed, self.rewrites(), d, before_matches[d].unwrap()));
            }
            k += 1;
        }
    }

    /// Whether some destination is still without a source.
    fn has_unresolved_target(&self) -> (r: bool)
        requires
            self.wf(),
        ensures
            r == (count_unresolved(self.items(), self.matches(), self.items().len() as int) > 0),
    {
        self.count_unresolved_exec() > 0
    }

    /// Finds the source of every destination it can: by identical content
    /// first, a rename before a copy; with all sources in scope and some
    /// destination left without one, the caller's sources are added once and
    /// matched by identical content too; then by similarity, renames before
    /// copies.
    pub fn resolve<D: Delegate>(&mut self, delegate: &mut Calls<D>) -> (r: Result<Outcome, Error>)
        requires
            old(self).wf(),
            old(self).is_fresh(),
        ensures
            resolution(*old(self), *final(self), r),
            final(delegate).visited() == old(delegate).visited(),
            final(delegate).failed() == (old(delegate).failed() || r is Err),
            final(delegate).sources_asked() == old(delegate).sources_asked()
                + if asks_for_sources(*old(self)) { 1nat } else { 0nat },
    {
        let mut out = Outcome {
            options: self.rewrites,
            num_similarity_checks: 0,
            num_similarity_checks_skipped_for_rename_tracking_due_to_limit: 0,
            num_similarity_checks_skipped_for_copy_tracking_due_to_limit: 0,
        };
        let ghost n0 = self.items().len();
        let ghost items0 = self.items();
        let ghost start = (self.matches(), self.consumed());
        self.match_by_id();
        let ghost by_id = self.matches();
        let ghost consumed_by_id = self.consumed();
        match self.rewrites.copies {
            Some(c) => {
                if c.source == CopySource::FromSetOfModifiedFilesAndAllSources && self.has_unresolved_target() {
                    let extra = match delegate.push_sources() {
                        Ok(extra) => extra,
                        Err(e) => return Err(e),
                    };
                    self.push_provided(&extra);
                    let ghost after_push = self.matches();
                    assert(forall|d: int| 0 <= d < n0 && (#[trigger] by_id[d]) is Some ==> after_push[d] == by_id[d]);
                    let ghost extra_len = (self.items().len() - n0) as nat;
                    assert(self.matches() =~= by_id + Seq::new(extra_len, |i: int| None::<Match>));
                    assert(self.consumed() =~= consumed_by_id + Seq::new(extra_len, |i: int| false));
                    self.match_by_id();
                    assert(forall|d: int| 0 <= d < n0 && (#[trigger] by_id[d]) is Some ==> after_push[d] is Some);
                }
            },
            None => {},
        }
        assert(forall|d: int| 0 <= d < n0 && (#[trigger] by_id[d]) is Some ==> self.matches()[d] == by_id[d]);
        let ghost after_id = self.matches();
        let ghost before_rename_consumed = self.consumed();
        let ghost mut renames_checked: Map<(int, int), DiffLineStats> = Map::empty();
        match self.match_by_similarity(SourceKind::Rename, delegate, &mut out) {
            Ok(checked) => {
                proof {
                    renames_checked = checked@;
                }
            },
            Err(e) => return Err(e),
        }
        let ghost after_rename_consumed = self.consumed();
        let ghost out_after_rename = out;
        assert(forall|d: int| 0 <= d < n0 && (#[trigger] by_id[d]) is Some ==> after_id[d] == by_id[d]);
        let ghost after_rename = self.matches();
        let ghost before_copy_consumed = self.consumed();
        let ghost mut copies_checked: Map<(int, int), DiffLineStats> = Map::empty();
        match self.match_by_similarity(SourceKind::Copy, delegate, &mut out) {
            Ok(checked) => {
                proof {
                    copies_checked = checked@;
                }
            },
            Err(e) => return Err(e),
        }
        assert(forall|d: int| 0 <= d < n0 && (#[trigger] by_id[d]) is Some ==> after_rename[d] == by_id[d]);
        proof {
            let rw = self.rewrites();
            let id = identity_pass(items0, rw.copies is Some, start, n0 as int);
            let est_rename = estimated_checks(items0, id.0, id.1, SourceKind::Rename);
            let all_sources = rw.copies is Some
                && rw.copies.unwrap().source == CopySource::FromSetOfModifiedFilesAndAllSources;
            if (!all_sources || count_unresolved(items0, id.0, n0 as int) == 0)
                && threshold_of(rw, SourceKind::Copy) is None
                && threshold_of(rw, SourceKind::Rename) is Some && !(rw.limit != 0 && est_rename > rw.limit) {
                assert(after_id == id.0);
                assert(before_rename_consumed == id.1);
                assert(self.items() == items0);
                assert(self.matches() == after_rename);
                assert(self.consumed() == after_rename_consumed);
                assert(out.num_similarity_checks == out_after_rename.num_similarity_checks);
                assert(renames_checked.dom().finite());
            }
            let est_copy = estimated_checks(items0, id.0, id.1, SourceKind::Copy);
            if (!all_sources || count_unresolved(items0, id.0, n0 as int) == 0)
                && threshold_of(rw, SourceKind::Rename) is None
                && threshold_of(rw, SourceKind::Copy) is Some && !(rw.limit != 0 && est_copy > rw.limit) {
                assert(after_id == id.0);
                assert(before_rename_consumed == id.1);
                assert(after_rename == id.0);
                assert(before_copy_consumed == id.1);
                assert(self.items() == items0);
                assert(out_after_rename.num_similarity_checks == 0);
                assert(copies_checked.dom().finite());
            }
        }
        Ok(out)
    }

    /// The indices of the emitted changes, in push order.
    pub fn emission_order(&self) -> (r: Vec<usize>)
        requires
            self.wf(),
        ensures
            r@.len() == emitted_upto(self.items(), self.consumed(), self.items().len() as int).len(),
            forall|k: int| 0 <= k < r@.len()
                ==> r@[k] as int == #[trigger] emitted_upto(self.items(), self.consumed(), self.items().len() as int)[k],
    {
        let n = self.items.len();
        let mut r: Vec<usize> = Vec::new();
        let mut j: usize = 0;
        while j < n
            invariant
                n == self.items().len(),
                self.wf(),
                j <= n,
                r@.len() == emitted_upto(self.items(), self.consumed(), j as int).len(),
                forall|k: int| 0 <= k < r@.len()
                    ==> r@[k] as int == #[trigger] emitted_upto(self.items(), self.consumed(), j as int)[k],
            decreases n - j,
        {
            let it = &self.items[j];
            if !it.provided && !(it.change.kind == ChangeKind::Deletion && self.consumed[j]) {
                r.push(j);
            }
            j += 1;
        }
        r
    }

    /// The change at `i`, as the visitor receives it.
    pub fn destination(&self, i: usize) -> (r: Destination)
        requires
            i < self.items().len(),
        ensures
            r.change == self.items()[i as int].change,
            r.location == self.items()[i as int].location,
    {
        Destination { change: self.items[i].change, location: self.items[i].location.clone() }
    }

    /// The source found for the change at `i`, as the visitor receives it.
    pub fn source_for(&self, i: usize) -> (r: Option<Source>)
        requires
            self.wf(),
            i < self.items().len(),
        ensures
            r == source_at(self.items(), self.matches(), i as int),
    {
        match self.matches[i] {
            None => None,
            Some(m) => {
                let src = &self.items[m.source];
                Some(Source {
                    kind: m.kind,
                    id: src.change.id,
                    entry_mode: src.change.entry_mode,
                    location: src.location.clone(),
                    change: src.change,
                    diff: m.diff,
                })
            },
        }
    }

    /// What the visitor receives, in order: each emitted change with the
    /// source found for it.
    pub fn emissions(&self) -> (r: Vec<(Destination, Option<Source>)>)
        requires
            self.wf(),
        ensures
            r@.len() == emitted_upto(self.items(), self.consumed(), self.items().len() as int).len(),
            forall|k: int| 0 <= k < r@.len() ==> {
                let i = emitted_upto(self.items(), self.consumed(), self.items().len() as int)[k];
                &&& (#[trigger] r@[k]).0 == (Destination {
                    change: self.items()[i].change,
                    location: self.items()[i].location,
                })
                &&& r@[k].1 == source_at(self.items(), self.matches(), i)
            },
            r@ == emission_pairs(self.items(), self.matches(), self.consumed()),
    {
        let order = self.emission_order();
        proof {
            lemma_emitted_once_in_push_order(self.items(), self.consumed(), self.items().len() as int);
        }
        let mut r: Vec<(Destination, Option<Source>)> = Vec::new();
        let mut k: usize = 0;
        while k < order.len()
            invariant
                self.wf(),
                k <= order@.len(),
                r@.len() == k,
                order@.len() == emitted_upto(self.items(), self.consumed(), self.items().len() as int).len(),
                forall|x: int| 0 <= x < order@.len()
                    ==> order@[x] as int == #[trigger] emitted_upto(self.items(), self.consumed(), self.items().len() as int)[x],
                forall|x: int| 0 <= x < emitted_upto(self.items(), self.consumed(), self.items().len() as int).len()
                    ==> 0 <= #[trigger] emitted_upto(self.items(), self.consumed(), self.items().len() as int)[x] < self.items().len(),
                forall|x: int| 0 <= x < k ==> {
                    let i = emitted_upto(self.items(), self.consumed(), self.items().len() as int)[x];
                    &&& (#[trigger] r@[x]).0 == (Destination {
                        change: self.items()[i].change,
                        location: self.items()[i].location,
                    })
                    &&& r@[x].1 == source_at(self.items(), self.matches(), i)
                },
            decreases order@.len() - k,
        {
            let i = order[k];
            assert(order@[k as int] as int == emitted_upto(self.items(), self.consumed(), self.items().len() as int)[k as int]);
            let destination = self.destination(i);
            let source = self.source_for(i);
            r.push((destination, source));
            k += 1;
        }
        assert(r@ =~= emission_pairs(self.items(), self.matches(), self.consumed()));
        r
    }

    /// Finds the sources as [`Tracker::resolve`] does, then hands the
    /// visitor the pairs of [`Tracker::emissions`] one by one, in that order,
    /// up to and including the first it answers with `Cancel`. A batch is
    /// emitted once: the tracker is marked as emitted. Fails exactly where a
    /// content lookup or the listing of sources fails, and then visits
    /// nothing.
    pub fn emit<D: Delegate>(&mut self, delegate: &mut Calls<D>) -> (r: Result<Outcome, Error>)
        requires
            old(self).wf(),
            old(self).is_fresh(),
        ensures
            final(self).emitted(),
            resolution(*old(self), *final(self), r),
            needs_no_outside_call(old(self).items(), old(self).matches(), old(self).consumed(), old(self).rewrites())
                ==> r is Ok,
            final(delegate).failed() == (old(delegate).failed() || r is Err),
            final(delegate).sources_asked() == old(delegate).sources_asked()
                + if asks_for_sources(*old(self)) { 1nat } else { 0nat },
            r is Err ==> final(delegate).visited() == old(delegate).visited(),
            r is Ok ==> {
                let p = emission_pairs(final(self).items(), final(self).matches(), final(self).consumed());
                let v0 = old(delegate).visited();
                let v = final(delegate).visited();
                let k = v.len() - v0.len();
                &&& v.len() >= v0.len()
                &&& v.subrange(0, v0.len() as int) == v0
                &&& k <= p.len()
                &&& forall|i: int| 0 <= i < k ==> (#[trigger] v[v0.len() + i]).0 == p[i].0 && v[v0.len() + i].1 == p[i].1
                &&& forall|i: int| 0 <= i < k - 1 ==> (#[trigger] v[v0.len() + i]).2 == Action::Continue
                &&& k < p.len() ==> k > 0 && v[v0.len() + k - 1].2 == Action::Cancel
            },
    {
        let out = match self.resolve(delegate) {
            Ok(out) => out,
            Err(e) => {
                self.emitted = true;
                return Err(e);
            },
        };
        let pairs = self.emissions();
        let ghost p = pairs@;
        let ghost v0 = delegate.visited();
        let mut rest = pairs;
        let n = rest.len();
        let mut k: usize = 0;
        let mut cancelled = false;
        while k < n && !cancelled
            invariant
                n == p.len(),
                k <= n,
                rest@ == p.subrange(k as int, n as int),
                delegate.visited().len() == v0.len() + k,
                delegate.visited().subrange(0, v0.len() as int) == v0,
                delegate.failed() == old(delegate).failed(),
                delegate.sources_asked() == old(delegate).sources_asked()
                    + if asks_for_sources(*old(self)) { 1nat } else { 0nat },
                forall|i: int| 0 <= i < k ==> (#[trigger] delegate.visited()[v0.len() + i]).0 == p[i].0
                    && delegate.visited()[v0.len() + i].1 == p[i].1,
                forall|i: int| 0 <= i < k - 1 ==> (#[trigger] delegate.visited()[v0.len() + i]).2 == Action::Continue,
                !cancelled ==> forall|i: int| 0 <= i < k ==> (#[trigger] delegate.visited()[v0.len() + i]).2 == Action::Continue,
                cancelled ==> k > 0 && delegate.visited()[v0.len() + k - 1].2 == Action::Cancel,
            decreases n - k,
        {
            let (destination, source) = rest.remove(0);
            assert(rest@ =~= p.subrange(k as int + 1, n as int));
            let ghost before = delegate.visited();
            let answer = delegate.visit(destination, source);
            proof {
                assert(delegate.visited().subrange(0, v0.len() as int) =~= before.subrange(0, v0.len() as int));
            }
            cancelled = answer == Action::Cancel;
            k += 1;
        }
        self.emitted = true;
        Ok(out)
    }
}

/// Each change that is emitted is emitted exactly once, and the emitted
/// changes come in push order; additions and modifications are always among
/// them.
pub proof fn lemma_emitted_once_in_push_order(items: Seq<Item>, consumed: Seq<bool>, n: int)
    requires
        0 <= n <= items.len(),
        consumed.len() == items.len(),
    ensures
        forall|k: int| 0 <= k < emitted_upto(items, consumed, n).len() ==> {
            &&& 0 <= #[trigger] emitted_upto(items, consumed, n)[k] < n
            &&& is_emitted(items[emitted_upto(items, consumed, n)[k]], consumed[emitted_upto(items, consumed, n)[k]])
        },
        forall|k1: int, k2: int| 0 <= k1 < k2 < emitted_upto(items, consumed, n).len()
            ==> #[trigger] emitted_upto(items, consumed, n)[k1] < #[trigger] emitted_upto(items, consumed, n)[k2],
        forall|i: int| 0 <= i < n && is_emitted(#[trigger] items[i], consumed[i])
            ==> exists|k: int| 0 <= k < emitted_upto(items, consumed, n).len() && emitted_upto(items, consumed, n)[k] == i,
        forall|i: int| 0 <= i < n && (items[i].change.kind == ChangeKind::Addition
            || items[i].change.kind == ChangeKind::Modification) && !items[i].provided
            ==> is_emitted(#[trigger] items[i], consumed[i]),
    decreases n,
{
    if n > 0 {
        lemma_emitted_once_in_push_order(items, consumed, n - 1);
        let prev = emitted_upto(items, consumed, n - 1);
        let s = emitted_upto(items, consumed, n);
        assert forall|i: int| 0 <= i < n && is_emitted(#[trigger] items[i], consumed[i])
            implies exists|k: int| 0 <= k < s.len() && s[k] == i by {
            if i < n - 1 {
                let k = choose|k: int| 0 <= k < prev.len() && prev[k] == i;
                assert(s[k] == i);
            } else {
                assert(s[prev.len() as int] == i);
            }
        }
    }
}

/// A deletion is the source of one rename at most.
pub proof fn lemma_rename_source_used_once(t: &Tracker, d1: int, d2: int)
    requires
        t.wf(),
        0 <= d1 < t.items().len(),
        0 <= d2 < t.items().len(),
        d1 != d2,
        t.matches()[d1] matches Some(m1) && m1.kind == SourceKind::Rename,
        t.matches()[d2] matches Some(m2) && m2.kind == SourceKind::Rename,
    ensures
        t.matches()[d1].unwrap().source != t.matches()[d2].unwrap().source,
{
}

/// Without copy detection every source found is a deletion, taken as a
/// rename: modifications never serve as sources.
pub proof fn lemma_without_copies_sources_are_deletions(t: &Tracker, d: int)
    requires
        t.wf(),
        t.rewrites().copies is None,
        0 <= d < t.items().len(),
        t.matches()[d] is Some,
    ensures
        t.matches()[d].unwrap().kind == SourceKind::Rename,
        t.items()[t.matches()[d].unwrap().source as int].change.kind == ChangeKind::Deletion,
{
}

/// Where a destination without a source has a candidate of identical
/// content (an unconsumed deletion, or with copy detection on a copy
/// source), identity matching gives it a source of identical content, with
/// no similarity statistics.
pub proof fn lemma_identity_match_found(
    items: Seq<Item>,
    copies: bool,
    st: (Seq<Option<Match>>, Seq<bool>),
    d: int,
    j: int,
)
    requires
        items.len() <= usize::MAX,
        st.0.len() == items.len(),
        st.1.len() == items.len(),
        0 <= d < items.len(),
        0 <= j < items.len(),
        is_target(items[d]),
        st.0[d] is None,
        items[j].change.id == items[d].change.id,
        (is_rename_candidate(items[j]) && !st.1[j]) || (copies && is_copy_candidate(items[j])),
    ensures
        identity_step(items, copies, st, d).0[d] matches Some(m) && m.diff is None
            && items[m.source as int].change.id == items[d].change.id,
{
    lemma_first_rename_is_candidate(items, st.1, items[d].change.id, 0);
    lemma_first_copy_is_candidate(items, items[d].change.id, 0);
    if is_rename_candidate(items[j]) && !st.1[j] {
        lemma_first_rename_exists(items, st.1, items[d].change.id, 0, j);
    } else {
        lemma_first_copy_exists(items, items[d].change.id, 0, j);
    }
}

/// A copy consumes nothing: after a destination is matched as a copy the
/// same source is still a candidate for every later destination.
pub proof fn lemma_copy_source_stays_available(
    items: Seq<Item>,
    copies: bool,
    st: (Seq<Option<Match>>, Seq<bool>),
    d: int,
)
    requires
        items.len() <= usize::MAX,
        st.0.len() == items.len(),
        st.1.len() == items.len(),
        0 <= d < items.len(),
        identity_step(items, copies, st, d).0[d] matches Some(m) && m.kind == SourceKind::Copy,
        st.0[d] is None,
    ensures
        identity_step(items, copies, st, d).1 == st.1,
        is_candidate(
            SourceKind::Copy,
            items[identity_step(items, copies, st, d).0[d].unwrap().source as int],
            st.1[identity_step(items, copies, st, d).0[d].unwrap().source as int],
        ),
{
    lemma_first_copy_is_candidate(items, items[d].change.id, 0);
}

proof fn lemma_first_candidate_is_candidate(items: Seq<Item>, consumed: Seq<bool>, kind: SourceKind, j: int)
    ensures
        first_candidate(items, consumed, kind, j) matches Some(k) ==> j <= k < items.len()
            && is_candidate(kind, items[k], consumed[k]),
    decreases items.len() - j,
{
    if 0 <= j < items.len() {
        lemma_first_candidate_is_candidate(items, consumed, kind, j + 1);
    }
}

proof fn lemma_first_candidate_skips(items: Seq<Item>, consumed: Seq<bool>, kind: SourceKind, j: int)
    requires
        0 <= j,
    ensures
        forall|k: int| j <= k < position_of(first_candidate(items, consumed, kind, j), items.len() as int)
            ==> !is_candidate(kind, #[trigger] items[k], consumed[k]),
    decreases items.len() - j,
{
    if j < items.len() {
        lemma_first_candidate_skips(items, consumed, kind, j + 1);
    }
}

/// Fewer candidates and more checks keep every rejection.
proof fn lemma_outcome_kept(
    items: Seq<Item>,
    c1: Seq<bool>,
    c2: Seq<bool>,
    kind: SourceKind,
    ch1: Map<(int, int), DiffLineStats>,
    ch2: Map<(int, int), DiffLineStats>,
    d: int,
    m: Option<Match>,
    p: u32,
)
    requires
        c1.len() == items.len(),
        c2.len() == items.len(),
        forall|k: int| 0 <= k < items.len() && #[trigger] c1[k] ==> c2[k],
        forall|k: int| #[trigger] ch1.contains_key((d, k)) ==> ch2.contains_key((d, k)) && ch2[(d, k)] == ch1[(d, k)],
        similarity_outcome(items, c1, kind, ch1, d, m, p),
        m matches Some(mm) ==> 0 <= mm.source < items.len(),
    ensures
        similarity_outcome(items, c2, kind, ch2, d, m, p),
{
    let bound = match m {
        Some(mm) => mm.source as int,
        None => items.len() as int,
    };
    assert forall|k: int| 0 <= k < bound && #[trigger] is_candidate(kind, items[k], c2[k]) implies rejected(ch2, d, k, p) by {
        assert(is_candidate(kind, items[k], c1[k]));
        assert(rejected(ch1, d, k, p));
    }
}

proof fn lemma_first_rename_is_candidate(items: Seq<Item>, consumed: Seq<bool>, id: ObjectId, j: int)
    ensures
        first_rename_by_id(items, consumed, id, j) matches Some(k) ==> {
            &&& j <= k < items.len()
            &&& is_rename_candidate(items[k])
            &&& !consumed[k]
            &&& items[k].change.id == id
        },
    decreases items.len() - j,
{
    if 0 <= j < items.len() {
        lemma_first_rename_is_candidate(items, consumed, id, j + 1);
    }
}

proof fn lemma_first_rename_exists(items: Seq<Item>, consumed: Seq<bool>, id: ObjectId, j: int, k: int)
    requires
        0 <= j <= k < items.len(),
        is_rename_candidate(items[k]) && !consumed[k] && items[k].change.id == id,
    ensures
        first_rename_by_id(items, consumed, id, j) is Some,
    decreases k - j,
{
    if j < k {
        lemma_first_rename_exists(items, consumed, id, j + 1, k);
    }
}

proof fn lemma_first_copy_exists(items: Seq<Item>, id: ObjectId, j: int, k: int)
    requires
        0 <= j <= k < items.len(),
        is_copy_candidate(items[k]) && items[k].change.id == id,
    ensures
        first_copy_by_id(items, id, j) is Some,
    decreases k - j,
{
    if j < k {
        lemma_first_copy_exists(items, id, j + 1, k);
    }
}

proof fn lemma_first_copy_is_candidate(items: Seq<Item>, id: ObjectId, j: int)
    ensures
        first_copy_by_id(items, id, j) matches Some(k) ==> {
            &&& j <= k < items.len()
            &&& is_copy_candidate(items[k])
            &&& items[k].change.id == id
        },
    decreases items.len() - j,
{
    if 0 <= j < items.len() {
        lemma_first_copy_is_candidate(items, id, j + 1);
    }
}

} // verus!
