//! Draining the queue of pending work.
//!
//! Every item that waits is resolved once, in the order in which it was
//! enqueued. A target settles it; a failure that may pass puts it back, with the
//! attempts it had; any other failure counts as an attempt and settles it as
//! unresolved.

use vstd::prelude::*;

use crate::cache::queue::{items, reports, waiting, PendingRow, PendingRowView, QueueTables, QueueView, RowFault};
use crate::cache::queue_laws::{lemma_waiting, only_misses_count_attempts, other_items_are_untouched, outcomes_are_read_back};
use crate::cache::state::CacheView;
use crate::cache::tables::{lemma_logs_chain, lemma_logs_self, CacheTables};
use crate::cache::{CacheError, PendingItem, PendingView, QueueError};
use crate::config::ResolverConfig;
use crate::normalize::has_text;
use crate::orchestrate::{resolve_core, resolves, Resolution, ResolutionView, UnresolvedReason};
use crate::order::{before, lemma_sorted, lemma_sorted_contains, sorted, views};
use crate::resolver::Resolver;
use crate::table::{ascending, lemma_key_unique, lemma_lookup_found, lemma_lookup_iff, lookup, Row};
use crate::text::texts;

verus! {

// ── Verdicts ─────────────────────────────────────────────────────────────────

/// What an attempt to resolve an item comes to.
#[derive(Clone, Copy, Debug, Eq, PartialEq, Structural)]
pub enum Verdict {
    /// It is the target with this id.
    Resolved(u128),
    /// It is unknown or ambiguous.
    Unresolved,
    /// The failure may pass; the item goes on waiting.
    StillPending,
}

/// What a resolution means for the item it was done for.
pub open spec fn verdict_of(r: ResolutionView) -> Verdict {
    match r {
        ResolutionView::Resolved(t) => Verdict::Resolved(t.id),
        ResolutionView::Unresolved { reason, .. } => if reason == UnresolvedReason::Offline {
            Verdict::StillPending
        } else {
            Verdict::Unresolved
        },
    }
}

/// What a resolution means for the item it was done for.
pub fn verdict_for(r: &Resolution) -> (v: Verdict)
    ensures
        v == verdict_of(r@),
{
    match r {
        Resolution::Resolved(t) => Verdict::Resolved(t.id),
        Resolution::Unresolved { reason, .. } => match reason {
            UnresolvedReason::Offline => Verdict::StillPending,
            UnresolvedReason::Unknown => Verdict::Unresolved,
            UnresolvedReason::Ambiguous => Verdict::Unresolved,
        },
    }
}

impl QueueView {
    /// The queue after a verdict on the item under `id` was recorded.
    pub open spec fn judged(self, id: Seq<char>, v: Verdict) -> QueueView {
        match v {
            Verdict::Resolved(target) => self.resolved(id, target),
            Verdict::Unresolved => self.unresolved(id),
            Verdict::StillPending => self.released(id),
        }
    }
}

/// Record a verdict on the item under `id`.
pub fn record(queue: &mut QueueTables, id: &str, v: Verdict)
    requires
        old(queue).wf(),
        v is Unresolved ==> (old(queue)@.row(id@) matches Some(row) ==> row.attempts < i64::MAX),
    ensures
        final(queue).wf(),
        final(queue)@ == old(queue)@.judged(id@, v),
{
    match v {
        Verdict::Resolved(target) => queue.mark_resolved(id, target),
        Verdict::Unresolved => queue.mark_unresolved(id),
        Verdict::StillPending => queue.release(id),
    }
}

// ── Summaries ────────────────────────────────────────────────────────────────

/// How many items came to what.
#[derive(Clone, Copy, Debug, Eq, PartialEq, Structural)]
pub struct DrainSummary {
    /// Items with a target.
    pub resolved: usize,
    /// Items that are unknown or ambiguous.
    pub unresolved: usize,
    /// Items that go on waiting.
    pub still_pending: usize,
}

impl DrainSummary {
    /// How many items were drained.
    pub open spec fn total(self) -> int {
        self.resolved + self.unresolved + self.still_pending
    }

    /// Nothing drained yet.
    pub fn new() -> (s: Self)
        ensures
            s == (DrainSummary { resolved: 0, unresolved: 0, still_pending: 0 }),
    {
        DrainSummary { resolved: 0, unresolved: 0, still_pending: 0 }
    }

    /// The summary with one more item that came to `v`.
    pub open spec fn counted(self, v: Verdict) -> Self {
        match v {
            Verdict::Resolved(_) => DrainSummary { resolved: (self.resolved + 1) as usize, ..self },
            Verdict::Unresolved => DrainSummary {
                unresolved: (self.unresolved + 1) as usize,
                ..self
            },
            Verdict::StillPending => DrainSummary {
                still_pending: (self.still_pending + 1) as usize,
                ..self
            },
        }
    }

    /// Count one more item.
    pub fn count(&mut self, v: Verdict)
        requires
            old(self).total() < usize::MAX,
        ensures
            *final(self) == old(self).counted(v),
            final(self).total() == old(self).total() + 1,
    {
        match v {
            Verdict::Resolved(_) => {
                self.resolved = self.resolved + 1;
            },
            Verdict::Unresolved => {
                self.unresolved = self.unresolved + 1;
            },
            Verdict::StillPending => {
                self.still_pending = self.still_pending + 1;
            },
        }
    }
}

// ── Draining ─────────────────────────────────────────────────────────────────

/// What made a drain stop.
#[derive(Debug)]
pub enum DrainError {
    /// The store could not be read.
    Cache(CacheError),
    /// The queue could not be read.
    Queue(QueueError),
}

/// Where a drain stands: the resolver, the store, the queue and the counts.
pub struct DrainState<R> {
    pub resolver: R,
    pub store: CacheView,
    pub queue: QueueView,
    pub summary: DrainSummary,
}

/// Whether draining `item` may lead from `a` to `b`.
pub open spec fn drains_item<R: Resolver>(
    config: ResolverConfig,
    item: PendingView,
    a: DrainState<R>,
    b: DrainState<R>,
) -> bool {
    exists|r: Resolution|
        {
            &&& #[trigger] resolves(
                a.resolver,
                a.store,
                config,
                item.query,
                Ok(r),
                b.resolver,
                b.store,
            )
            &&& b.queue == a.queue.judged(item.id, verdict_of(r@))
            &&& b.summary == a.summary.counted(verdict_of(r@))
        }
}

/// Whether `steps` drain the first items of `list` one after the other.
pub open spec fn drains<R: Resolver>(
    config: ResolverConfig,
    list: Seq<PendingView>,
    steps: Seq<DrainState<R>>,
) -> bool {
    &&& 1 <= steps.len() <= list.len() + 1
    &&& forall|i: int|
        0 <= i < steps.len() - 1 ==> #[trigger] drains_item(
            config,
            list[i],
            steps[i],
            steps[i + 1],
        )
}

/// Whether a drain from `start` may come to `r` and leave things as in `end`: it
/// goes through all items that wait, in the order in which they were enqueued,
/// each once; it stops early only where the store or the queue is unreadable.
pub open spec fn drained<R: Resolver>(
    config: ResolverConfig,
    start: DrainState<R>,
    r: Result<DrainSummary, DrainError>,
    end: DrainState<R>,
) -> bool {
    match start.queue.claimed(waiting(start.queue.pending).len() as int) {
        Err(fault) => {
            &&& r matches Err(DrainError::Queue(e)) && reports(e, fault)
            &&& end == start
        },
        Ok(list) => exists|steps: Seq<DrainState<R>>|
            {
                &&& #[trigger] drains(config, list, steps)
                &&& steps[0] == start
                &&& match r {
                    Ok(summary) => steps.len() == list.len() + 1 && steps.last() == end && summary
                        == end.summary,
                    Err(DrainError::Cache(e)) => {
                        let last = steps.last();
                        &&& steps.len() <= list.len()
                        &&& resolves(
                            last.resolver,
                            last.store,
                            config,
                            list[steps.len() - 1].query,
                            Err(e),
                            end.resolver,
                            end.store,
                        )
                        &&& end.queue == last.queue
                        &&& end.summary == last.summary
                    },
                    Err(DrainError::Queue(_)) => false,
                }
            },
    }
}

/// The rows that wait are in key order, too.
proof fn lemma_waiting_ascends(s: Seq<PendingRowView>)
    requires
        ascending::<PendingRow>(s),
    ensures
        ascending::<PendingRow>(waiting(s)),
    decreases s.len(),
{
    if s.len() > 0 {
        let front = s.drop_last();
        lemma_waiting_ascends(front);
        lemma_waiting(front);
        let all = waiting(s);
        assert forall|i: int, j: int| 0 <= i < j < all.len() implies before(
            PendingRow::key_of(#[trigger] all[i]),
            PendingRow::key_of(#[trigger] all[j]),
        ) by {
            let w = waiting(front);
            assert(all[i] == w[i]);
            if j < w.len() {
                assert(all[j] == w[j]);
            } else {
                assert(w.contains(w[i]));
                let k = choose|k: int| 0 <= k < front.len() && front[k] == w[i];
                assert(s[k] == front[k]);
                assert(all[j] == s[s.len() - 1]);
            }
        }
    }
}

/// The items that rows are read back as have their ids.
proof fn lemma_item_ids(s: Seq<PendingRowView>, n: int)
    requires
        0 <= n <= s.len(),
    ensures
        items(s, n) matches Ok(list) ==> list.len() == n && forall|i: int|
            0 <= i < n ==> (#[trigger] list[i]).id == s[i].id,
    decreases n,
{
    if n > 0 {
        lemma_item_ids(s, n - 1);
    }
}

/// The items that are handed out differ in their ids, and each has its row in
/// the queue.
pub proof fn claimed_ids_differ(q: QueueView, n: int)
    requires
        ascending::<PendingRow>(q.pending),
        0 <= n,
    ensures
        q.claimed(n) matches Ok(list) ==> {
            &&& forall|i: int, j: int|
                0 <= i < j < list.len() ==> (#[trigger] list[i]).id != (#[trigger] list[j]).id
            &&& forall|i: int| 0 <= i < list.len() ==> q.row((#[trigger] list[i]).id) is Some
        },
{
    let w = waiting(q.pending);
    let rows = sorted::<PendingRow>(w);
    lemma_sorted::<PendingRow>(w);
    lemma_waiting(q.pending);
    lemma_waiting_ascends(q.pending);
    assert(w.no_duplicates()) by {
        assert forall|i: int, j: int| 0 <= i < w.len() && 0 <= j < w.len() && i != j implies w[i]
            != w[j] by {
            if w[i] == w[j] {
                lemma_key_unique::<PendingRow>(w, i, j);
            }
        }
    }
    w.lemma_multiset_has_no_duplicates();
    rows.lemma_multiset_has_no_duplicates_conv();
    assert forall|i: int| 0 <= i < rows.len() implies lookup::<PendingRow>(
        q.pending,
        (#[trigger] rows[i]).id,
    ) == Some(rows[i]) by {
        assert(rows.contains(rows[i]));
        lemma_sorted_contains::<PendingRow>(w, rows[i]);
        lemma_lookup_iff::<PendingRow>(q.pending, rows[i]);
    }
    lemma_item_ids(
        rows,
        if n < rows.len() {
            n
        } else {
            rows.len() as int
        },
    );
}

/// A verdict on one item leaves every other as it is.
proof fn lemma_judged_others(q: QueueView, id: Seq<char>, v: Verdict, other: Seq<char>)
    requires
        ascending::<PendingRow>(q.pending),
        other != id,
    ensures
        q.judged(id, v).row(other) == q.row(other),
{
    match v {
        Verdict::Resolved(target) => other_items_are_untouched(q, id, target, other),
        _ => other_items_are_untouched(q, id, 0, other),
    }
}

/// Resolve every item that waits, once, in the order in which it was enqueued,
/// and record what it comes to.
pub fn drain<R: Resolver>(
    resolver: &mut R,
    cache: &mut CacheTables,
    queue: &mut QueueTables,
    config: &ResolverConfig,
) -> (r: Result<DrainSummary, DrainError>)
    requires
        old(cache).wf(),
        old(queue).wf(),
        forall|x: PendingRowView| #[trigger]
            old(queue)@.pending.contains(x) ==> x.attempts < i64::MAX,
    ensures
        final(cache).wf(),
        final(cache).logs_since(old(cache)),
        final(queue).wf(),
        exists|summary: DrainSummary|
            #![trigger summary.total()]
            drained(
                *config,
                DrainState {
                    resolver: *old(resolver),
                    store: old(cache)@,
                    queue: old(queue)@,
                    summary: DrainSummary { resolved: 0, unresolved: 0, still_pending: 0 },
                },
                r,
                DrainState {
                    resolver: *final(resolver),
                    store: final(cache)@,
                    queue: final(queue)@,
                    summary,
                },
            ),
{
    let ghost first = *cache;
    let mut summary = DrainSummary::new();
    let ghost start = DrainState {
        resolver: *resolver,
        store: cache@,
        queue: queue@,
        summary,
    };
    proof {
        lemma_logs_self(first);
        assert(summary.total() == 0);
    }
    let n: usize = queue.pending_count();
    let list = match queue.claim_pending(n) {
        Ok(list) => list,
        Err(e) => {
            return Err(DrainError::Queue(e));
        },
    };
    let ghost all = views(list@);
    let ghost mut steps: Seq<DrainState<R>> = seq![start];
    let mut i: usize = 0;
    proof {
        claimed_ids_differ(start.queue, n as int);
        assert(all.len() == list@.len());
        assert forall|j: int| 0 <= j < all.len() implies (start.queue.row((#[trigger] all[j]).id)
            matches Some(row) ==> row.attempts < i64::MAX) by {
            lemma_lookup_found::<PendingRow>(start.queue.pending, all[j].id);
        }
        assert(drains(*config, all, steps));
    }
    while i < list.len()
        invariant
            i <= list@.len(),
            first == *old(cache),
            start == (DrainState::<R> {
                resolver: *old(resolver),
                store: old(cache)@,
                queue: old(queue)@,
                summary: DrainSummary { resolved: 0, unresolved: 0, still_pending: 0 },
            }),
            all == views(list@),
            all.len() == list@.len(),
            start.queue.claimed(waiting(start.queue.pending).len() as int) == Ok::<_, RowFault>(
                all,
            ),
            forall|a: int, b: int|
                0 <= a < b < all.len() ==> (#[trigger] all[a]).id != (#[trigger] all[b]).id,
            forall|j: int|
                i <= j < all.len() ==> queue@.row((#[trigger] all[j]).id) == start.queue.row(
                    all[j].id,
                ),
            forall|j: int|
                0 <= j < all.len() ==> (start.queue.row((#[trigger] all[j]).id) matches Some(row)
                    ==> row.attempts < i64::MAX),
            cache.wf(),
            cache.logs_since(&first),
            queue.wf(),
            summary.total() == i,
            steps.len() == i + 1,
            steps[0] == start,
            drains(*config, all, steps),
            steps.last() == (DrainState::<R> {
                resolver: *resolver,
                store: cache@,
                queue: queue@,
                summary,
            }),
        decreases list@.len() - i,
    {
        let item = &list[i];
        assert(item@ == all[i as int]);
        let ghost a = steps.last();
        let ghost mid = *cache;
        let resolution = resolve_core(resolver, cache, config, item.query.as_str());
        proof {
            lemma_logs_chain(first, mid, *cache);
        }
        match resolution {
            Err(e) => {
                assert(drains(*config, all, steps));
                assert(summary.total() == i);
                return Err(DrainError::Cache(e));
            },
            Ok(found) => {
                let v = verdict_for(&found);
                let ghost before_record = queue@;
                record(queue, item.id.as_str(), v);
                summary.count(v);
                proof {
                    let b = DrainState {
                        resolver: *resolver,
                        store: cache@,
                        queue: queue@,
                        summary,
                    };
                    assert(resolves(
                        a.resolver,
                        a.store,
                        *config,
                        all[i as int].query,
                        Ok(found),
                        b.resolver,
                        b.store,
                    ));
                    assert(drains_item(*config, all[i as int], a, b));
                    let done = steps;
                    steps = steps.push(b);
                    assert forall|k: int| 0 <= k < steps.len() - 1 implies #[trigger] drains_item(
                        *config,
                        all[k],
                        steps[k],
                        steps[k + 1],
                    ) by {
                        if k < done.len() - 1 {
                            assert(drains_item(*config, all[k], done[k], done[k + 1]));
                        }
                    }
                    assert forall|j: int| i + 1 <= j < all.len() implies queue@.row(
                        (#[trigger] all[j]).id,
                    ) == start.queue.row(all[j].id) by {
                        lemma_judged_others(before_record, all[i as int].id, v, all[j].id);
                    }
                }
            },
        }
        i += 1;
    }
    assert(drains(*config, all, steps));
    assert(summary.total() == i);
    Ok(summary)
}

// ── Rounds ───────────────────────────────────────────────────────────────────

/// How many items are claimed in the next round: a batch beyond those that were
/// put back and are handed out again.
pub open spec fn claim_size(batch_size: int, still_pending: int) -> int {
    if batch_size + still_pending > usize::MAX {
        usize::MAX as int
    } else {
        batch_size + still_pending
    }
}

/// How many items to claim in the next round.
pub fn next_claim(batch_size: usize, still_pending: usize) -> (n: usize)
    ensures
        n == claim_size(batch_size as int, still_pending as int),
{
    if batch_size > usize::MAX - still_pending {
        usize::MAX
    } else {
        batch_size + still_pending
    }
}

/// The items among the first `n` of `list` that are not in `tried` and did not
/// come before, and `tried` with their ids.
pub open spec fn fresh_items(list: Seq<PendingView>, tried: Seq<Seq<char>>, n: int) -> (
    Seq<PendingView>,
    Seq<Seq<char>>,
)
    decreases n,
{
    if n <= 0 {
        (Seq::empty(), tried)
    } else {
        let (fresh, known) = fresh_items(list, tried, n - 1);
        let item = list[n - 1];
        if known.contains(item.id) {
            (fresh, known)
        } else {
            (fresh.push(item), known.push(item.id))
        }
    }
}

/// A drain in rounds, for a queue that hands out a limited number of items at a
/// time: what was tried so far, and what it came to.
#[derive(Debug)]
pub struct DrainRounds {
    batch_size: usize,
    tried: Vec<String>,
    summary: DrainSummary,
}

impl DrainRounds {
    /// How many items a round is meant to have.
    pub closed spec fn batch_spec(&self) -> int {
        self.batch_size as int
    }

    /// The ids of the items that were tried, in order.
    pub closed spec fn tried_spec(&self) -> Seq<Seq<char>> {
        texts(self.tried@)
    }

    /// What they came to.
    pub closed spec fn summary_spec(&self) -> DrainSummary {
        self.summary
    }

    /// A drain with rounds of `batch_size` items, at least one.
    pub fn new(batch_size: usize) -> (r: Self)
        ensures
            r.batch_spec() == if batch_size == 0 {
                1
            } else {
                batch_size as int
            },
            r.tried_spec() == Seq::<Seq<char>>::empty(),
            r.summary_spec() == (DrainSummary { resolved: 0, unresolved: 0, still_pending: 0 }),
    {
        let tried: Vec<String> = Vec::new();
        assert(texts(tried@) =~= Seq::empty());
        DrainRounds {
            batch_size: if batch_size == 0 {
                1
            } else {
                batch_size
            },
            tried,
            summary: DrainSummary::new(),
        }
    }

    /// How many items to claim in this round.
    pub fn claim(&self) -> (n: usize)
        ensures
            n == claim_size(self.batch_spec(), self.summary_spec().still_pending as int),
    {
        next_claim(self.batch_size, self.summary.still_pending)
    }

    /// The items of this round: those claimed that were not tried before. The
    /// drain is done where there are none.
    pub fn take(&mut self, items: &Vec<PendingItem>) -> (fresh: Vec<PendingItem>)
        ensures
            (views(fresh@), final(self).tried_spec()) == fresh_items(
                views(items@),
                old(self).tried_spec(),
                items@.len() as int,
            ),
            final(self).batch_spec() == old(self).batch_spec(),
            final(self).summary_spec() == old(self).summary_spec(),
    {
        let ghost list = views(items@);
        let ghost tried = texts(self.tried@);
        let mut fresh: Vec<PendingItem> = Vec::new();
        let mut i: usize = 0;
        assert(views(fresh@) =~= Seq::empty());
        while i < items.len()
            invariant
                list == views(items@),
                i <= items@.len(),
                (views(fresh@), texts(self.tried@)) == fresh_items(list, tried, i as int),
                self.batch_size == old(self).batch_size,
                self.summary == old(self).summary,
            decreases items@.len() - i,
        {
            let item = &items[i];
            assert(item@ == list[i as int]);
            if !has_text(&self.tried, item.id.as_str()) {
                let ghost done = fresh@;
                let ghost known = self.tried@;
                let again = item.clone();
                self.tried.push(item.id.clone());
                fresh.push(again);
                proof {
                    assert(views(fresh@) =~= views(done).push(item@));
                    assert(texts(self.tried@) =~= texts(known).push(item@.id));
                }
            }
            i += 1;
        }
        fresh
    }

    /// What a resolution means for the item of this round that it was done for; it
    /// is counted.
    pub fn judge(&mut self, r: &Resolution) -> (v: Verdict)
        requires
            old(self).summary_spec().total() < usize::MAX,
        ensures
            v == verdict_of(r@),
            final(self).summary_spec() == old(self).summary_spec().counted(v),
            final(self).summary_spec().total() == old(self).summary_spec().total() + 1,
            final(self).batch_spec() == old(self).batch_spec(),
            final(self).tried_spec() == old(self).tried_spec(),
    {
        let v = verdict_for(r);
        self.summary.count(v);
        v
    }

    /// What the items came to so far.
    pub fn summary(&self) -> (s: DrainSummary)
        ensures
            s == self.summary_spec(),
    {
        self.summary
    }
}

// ── Laws ─────────────────────────────────────────────────────────────────────

/// A failure that may pass leaves an item waiting with the attempts it had; an
/// unknown or ambiguous name settles it and counts one attempt; a target settles
/// it and counts none.
pub proof fn verdicts_settle_items(q: QueueView, id: Seq<char>, r: ResolutionView)
    requires
        ascending::<PendingRow>(q.pending),
        q.row(id) is Some,
        q.row(id)->Some_0.attempts < i64::MAX,
    ensures
        ({
            let was = q.row(id)->Some_0;
            let now = q.judged(id, verdict_of(r)).row(id)->Some_0;
            match r {
                ResolutionView::Resolved(t) => {
                    &&& now.attempts == was.attempts
                    &&& !now.waits()
                    &&& now.item() matches Ok(item) && item.target_id == Some(t.id)
                },
                ResolutionView::Unresolved { reason: UnresolvedReason::Offline, .. } => {
                    &&& now.attempts == was.attempts
                    &&& now.waits()
                },
                ResolutionView::Unresolved { .. } => {
                    &&& now.attempts == was.attempts + 1
                    &&& !now.waits()
                },
            }
        }),
{
    let target = match r {
        ResolutionView::Resolved(t) => t.id,
        _ => 0,
    };
    only_misses_count_attempts(q, id, target);
    outcomes_are_read_back(q, id, target);
}

/// A drain that comes to its end counts every item that waited at its start.
pub proof fn drains_count_every_item<R: Resolver>(
    config: ResolverConfig,
    start: DrainState<R>,
    summary: DrainSummary,
    end: DrainState<R>,
)
    requires
        drained(config, start, Ok(summary), end),
        start.summary.total() == 0,
        waiting(start.queue.pending).len() <= usize::MAX,
    ensures
        summary.total() == waiting(start.queue.pending).len(),
{
    let n = waiting(start.queue.pending).len() as int;
    let list = start.queue.claimed(n)->Ok_0;
    let steps = choose|steps: Seq<DrainState<R>>|
        {
            &&& #[trigger] drains(config, list, steps)
            &&& steps[0] == start
            &&& steps.len() == list.len() + 1 && steps.last() == end && summary == end.summary
        };
    lemma_sorted::<PendingRow>(waiting(start.queue.pending));
    lemma_item_ids(sorted::<PendingRow>(waiting(start.queue.pending)), n);
    lemma_steps_count(config, list, steps, list.len() as int);
}

proof fn lemma_steps_count<R: Resolver>(
    config: ResolverConfig,
    list: Seq<PendingView>,
    steps: Seq<DrainState<R>>,
    i: int,
)
    requires
        drains(config, list, steps),
        steps[0].summary.total() == 0,
        0 <= i < steps.len(),
        list.len() <= usize::MAX,
    ensures
        steps[i].summary.total() == i,
    decreases i,
{
    if i > 0 {
        lemma_steps_count(config, list, steps, i - 1);
        assert(drains_item(config, list[i - 1], steps[i - 1], steps[i - 1 + 1]));
    }
}

/// The items of a round were not tried before, each comes once, and all claimed
/// items count as tried afterwards.
pub proof fn rounds_try_each_item_once(list: Seq<PendingView>, tried: Seq<Seq<char>>, n: int)
    requires
        0 <= n <= list.len(),
    ensures
        ({
            let (fresh, known) = fresh_items(list, tried, n);
            &&& known == tried + fresh.map_values(|x: PendingView| x.id)
            &&& forall|i: int|
                0 <= i < fresh.len() ==> list.contains(#[trigger] fresh[i]) && !tried.contains(
                    fresh[i].id,
                )
            &&& forall|i: int, j: int|
                0 <= i < j < fresh.len() ==> (#[trigger] fresh[i]).id != (#[trigger] fresh[j]).id
            &&& forall|i: int| 0 <= i < n ==> known.contains((#[trigger] list[i]).id)
        }),
    decreases n,
{
    let (fresh, known) = fresh_items(list, tried, n);
    let ids = fresh.map_values(|x: PendingView| x.id);
    if n > 0 {
        rounds_try_each_item_once(list, tried, n - 1);
        let (front, before) = fresh_items(list, tried, n - 1);
        let front_ids = front.map_values(|x: PendingView| x.id);
        let item = list[n - 1];
        if !before.contains(item.id) {
            assert(ids =~= front_ids.push(item.id));
            assert(known =~= tried + ids);
            assert(list.contains(item));
            assert forall|i: int| 0 <= i < fresh.len() implies list.contains(#[trigger] fresh[i])
                && !tried.contains(fresh[i].id) by {
                if i < front.len() {
                    assert(fresh[i] == front[i]);
                } else if tried.contains(item.id) {
                    let k = choose|k: int| 0 <= k < tried.len() && tried[k] == item.id;
                    assert(before[k] == item.id);
                }
            }
            assert forall|i: int, j: int| 0 <= i < j < fresh.len() implies (#[trigger] fresh[i]).id
                != (#[trigger] fresh[j]).id by {
                assert(fresh[i] == front[i]);
                if j < front.len() {
                    assert(fresh[j] == front[j]);
                } else {
                    assert(before[tried.len() + i] == front_ids[i]);
                }
            }
            assert forall|i: int| 0 <= i < n implies known.contains((#[trigger] list[i]).id) by {
                if i < n - 1 {
                    let k = choose|k: int| 0 <= k < before.len() && before[k] == list[i].id;
                    assert(known[k] == list[i].id);
                } else {
                    assert(known[before.len() as int] == item.id);
                }
            }
        }
    } else {
        assert(known =~= tried + ids);
    }
}

/// A round that claims a batch beyond the items that were put back reaches a new
/// item, where one waits: a round without new items means that every item that
/// waits was tried.
pub proof fn empty_rounds_end_a_drain(
    q: QueueView,
    batch_size: int,
    tried: Seq<Seq<char>>,
    put_back: Seq<Seq<char>>,
)
    requires
        ascending::<PendingRow>(q.pending),
        batch_size >= 1,
        put_back.len() < usize::MAX,
        forall|x: PendingRowView| #[trigger]
            waiting(q.pending).contains(x) && tried.contains(x.id) ==> put_back.contains(x.id),
        q.claimed(claim_size(batch_size, put_back.len() as int)) matches Ok(list) && fresh_items(
            list,
            tried,
            list.len() as int,
        ).0.len() == 0,
    ensures
        forall|x: PendingRowView| #[trigger]
            waiting(q.pending).contains(x) ==> tried.contains(x.id),
{
    let n = claim_size(batch_size, put_back.len() as int);
    let list = q.claimed(n)->Ok_0;
    let w = waiting(q.pending);
    let rows = sorted::<PendingRow>(w);
    let m = if n < rows.len() {
        n
    } else {
        rows.len() as int
    };
    lemma_sorted::<PendingRow>(w);
    lemma_item_ids(rows, m);
    claimed_ids_differ(q, n);
    rounds_try_each_item_once(list, tried, list.len() as int);
    let none = fresh_items(list, tried, list.len() as int).0;
    assert(tried + none.map_values(|x: PendingView| x.id) =~= tried);
    assert forall|i: int| 0 <= i < m implies tried.contains(#[trigger] rows[i].id)
        && put_back.contains(rows[i].id) by {
        assert(list[i].id == rows[i].id);
        assert(rows.contains(rows[i]));
        lemma_sorted_contains::<PendingRow>(w, rows[i]);
    }
    let ids = Seq::new(m as nat, |i: int| list[i].id);
    assert(ids.no_duplicates());
    ids.unique_seq_to_set();
    put_back.lemma_cardinality_of_set();
    assert(ids.to_set().subset_of(put_back.to_set())) by {
        assert forall|k: Seq<char>| ids.to_set().contains(k) implies put_back.to_set().contains(
            k,
        ) by {
            let i = choose|i: int| 0 <= i < ids.len() && ids[i] == k;
            assert(rows[i].id == k);
        }
    }
    vstd::set_lib::lemma_len_subset(ids.to_set(), put_back.to_set());
    assert(m == rows.len());
    assert forall|x: PendingRowView| #[trigger] w.contains(x) implies tried.contains(x.id) by {
        lemma_sorted_contains::<PendingRow>(w, x);
        let i = choose|i: int| 0 <= i < rows.len() && rows[i] == x;
        assert(tried.contains(rows[i].id));
    }
}

} // verus!
