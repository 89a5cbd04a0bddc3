//! What holds of the queue as a whole.

use vstd::prelude::*;

use crate::cache::queue::{items, waiting, PendingRow, PendingRowView, QueueView, RowFault};
use crate::cache::{PendingState, PendingView};
use crate::identity::{hyphenated, id_text_round_trips};
use crate::order::{lemma_sorted, lemma_sorted_contains, sorted, Sortable};
use crate::table::{ascending, lemma_lookup_found, lemma_put_lookup, lemma_put_rows};

verus! {

/// Enqueueing an id that is there already changes nothing.
pub proof fn enqueue_is_idempotent(
    q: QueueView,
    id: Seq<char>,
    query: Seq<char>,
    other: Seq<char>,
)
    requires
        ascending::<PendingRow>(q.pending),
    ensures
        q.enqueued(id, query).enqueued(id, other) == q.enqueued(id, query),
{
    if q.row(id) is None {
        let row = PendingRowView {
            id,
            query,
            state: PendingState::Pending.wire(),
            attempts: 0,
            target_id: None,
            seq: q.seq(),
        };
        lemma_put_lookup::<PendingRow>(q.pending, row, id);
    }
}

/// A new item waits, with no attempts and no target; every other item stays as
/// it is.
pub proof fn enqueued_item_waits(q: QueueView, id: Seq<char>, query: Seq<char>, other: Seq<char>)
    requires
        ascending::<PendingRow>(q.pending),
        q.row(id) is None,
    ensures
        q.enqueued(id, query).row(id) matches Some(row) && {
            &&& row.query == query
            &&& row.waits()
            &&& row.attempts == 0
            &&& row.target_id is None
        },
        other != id ==> q.enqueued(id, query).row(other) == q.row(other),
{
    let row = PendingRowView {
        id,
        query,
        state: PendingState::Pending.wire(),
        attempts: 0,
        target_id: None,
        seq: q.seq(),
    };
    lemma_put_lookup::<PendingRow>(q.pending, row, id);
    lemma_put_lookup::<PendingRow>(q.pending, row, other);
}

/// Only an item that turns out to be unresolvable counts an attempt: resolving
/// it and putting it back leave its attempts alone.
pub proof fn only_misses_count_attempts(q: QueueView, id: Seq<char>, target: u128)
    requires
        ascending::<PendingRow>(q.pending),
        q.row(id) is Some,
        q.row(id)->Some_0.attempts < i64::MAX,
    ensures
        q.resolved(id, target).row(id)->Some_0.attempts == q.row(id)->Some_0.attempts,
        q.released(id).row(id)->Some_0.attempts == q.row(id)->Some_0.attempts,
        q.unresolved(id).row(id)->Some_0.attempts == q.row(id)->Some_0.attempts + 1,
{
    let row = q.row(id)->Some_0;
    lemma_lookup_found::<PendingRow>(q.pending, id);
    lemma_put_lookup::<PendingRow>(
        q.pending,
        PendingRowView {
            state: PendingState::Resolved.wire(),
            target_id: Some(hyphenated(target)),
            ..row
        },
        id,
    );
    lemma_put_lookup::<PendingRow>(
        q.pending,
        PendingRowView { state: PendingState::Pending.wire(), ..row },
        id,
    );
    lemma_put_lookup::<PendingRow>(
        q.pending,
        PendingRowView {
            state: PendingState::Unresolved.wire(),
            attempts: (row.attempts + 1) as i64,
            ..row
        },
        id,
    );
}

/// A resolved item is read back with its target; one that was put back waits
/// again.
pub proof fn outcomes_are_read_back(q: QueueView, id: Seq<char>, target: u128)
    requires
        ascending::<PendingRow>(q.pending),
        q.row(id) is Some,
    ensures
        q.resolved(id, target).row(id)->Some_0.item() matches Ok(item) && {
            &&& item.id == id
            &&& item.query == q.row(id)->Some_0.query
            &&& item.state == PendingState::Resolved
            &&& item.target_id == Some(target)
        },
        q.released(id).row(id)->Some_0.waits(),
        !q.resolved(id, target).row(id)->Some_0.waits(),
        !q.unresolved(id).row(id)->Some_0.waits(),
{
    let row = q.row(id)->Some_0;
    lemma_lookup_found::<PendingRow>(q.pending, id);
    id_text_round_trips(target);
    PendingState::Resolved.wire_round_trips();
    PendingState::Unresolved.wire_round_trips();
    PendingState::Pending.wire_round_trips();
    lemma_put_lookup::<PendingRow>(
        q.pending,
        PendingRowView {
            state: PendingState::Resolved.wire(),
            target_id: Some(hyphenated(target)),
            ..row
        },
        id,
    );
    lemma_put_lookup::<PendingRow>(
        q.pending,
        PendingRowView { state: PendingState::Pending.wire(), ..row },
        id,
    );
    lemma_put_lookup::<PendingRow>(
        q.pending,
        PendingRowView {
            state: PendingState::Unresolved.wire(),
            attempts: (row.attempts + 1) as i64,
            ..row
        },
        id,
    );
}

/// What happens to one item leaves every other as it is.
pub proof fn other_items_are_untouched(
    q: QueueView,
    id: Seq<char>,
    target: u128,
    other: Seq<char>,
)
    requires
        ascending::<PendingRow>(q.pending),
        other != id,
    ensures
        q.resolved(id, target).row(other) == q.row(other),
        q.unresolved(id).row(other) == q.row(other),
        q.released(id).row(other) == q.row(other),
{
    if let Some(row) = q.row(id) {
        lemma_lookup_found::<PendingRow>(q.pending, id);
        lemma_put_lookup::<PendingRow>(
            q.pending,
            PendingRowView {
                state: PendingState::Resolved.wire(),
                target_id: Some(hyphenated(target)),
                ..row
            },
            other,
        );
        lemma_put_lookup::<PendingRow>(
            q.pending,
            PendingRowView { state: PendingState::Pending.wire(), ..row },
            other,
        );
        lemma_put_lookup::<PendingRow>(
            q.pending,
            PendingRowView {
                state: PendingState::Unresolved.wire(),
                attempts: (row.attempts + 1) as i64,
                ..row
            },
            other,
        );
    }
}

// ── Histories ────────────────────────────────────────────────────────────────

/// A call on the queue.
pub enum QueueCall {
    Enqueue { id: Seq<char>, query: Seq<char> },
    Claim { n: int },
    Resolve { id: Seq<char>, target: u128 },
    Miss { id: Seq<char> },
    Release { id: Seq<char> },
}

impl QueueView {
    /// The state after one call.
    pub open spec fn after_call(self, call: QueueCall) -> Self {
        match call {
            QueueCall::Enqueue { id, query } => self.enqueued(id, query),
            QueueCall::Claim { n } => self,
            QueueCall::Resolve { id, target } => self.resolved(id, target),
            QueueCall::Miss { id } => self.unresolved(id),
            QueueCall::Release { id } => self.released(id),
        }
    }

    /// The state after the calls `calls`, one after the other.
    pub open spec fn after_calls(self, calls: Seq<QueueCall>) -> Self
        decreases calls.len(),
    {
        if calls.len() == 0 {
            self
        } else {
            self.after_calls(calls.drop_last()).after_call(calls.last())
        }
    }
}

/// Whether a call enqueues `id`.
pub open spec fn enqueues(call: QueueCall, id: Seq<char>) -> bool {
    call matches QueueCall::Enqueue { id: x, query } && x == id
}

/// How often the item `id` turned out to be unresolvable.
pub open spec fn misses(calls: Seq<QueueCall>, id: Seq<char>) -> nat
    decreases calls.len(),
{
    if calls.len() == 0 {
        0
    } else {
        misses(calls.drop_last(), id) + if calls.last() == (QueueCall::Miss { id }) {
            1nat
        } else {
            0nat
        }
    }
}

/// The state in which the last outcome left the item `id`; it waits where there
/// was none.
pub open spec fn last_state(calls: Seq<QueueCall>, id: Seq<char>) -> PendingState
    decreases calls.len(),
{
    if calls.len() == 0 {
        PendingState::Pending
    } else {
        match calls.last() {
            QueueCall::Resolve { id: x, target } if x == id => PendingState::Resolved,
            QueueCall::Miss { id: x } if x == id => PendingState::Unresolved,
            QueueCall::Release { id: x } if x == id => PendingState::Pending,
            _ => last_state(calls.drop_last(), id),
        }
    }
}

/// The target that the item `id` was last resolved to.
pub open spec fn last_target(calls: Seq<QueueCall>, id: Seq<char>) -> Option<u128>
    decreases calls.len(),
{
    if calls.len() == 0 {
        None
    } else {
        match calls.last() {
            QueueCall::Resolve { id: x, target } if x == id => Some(target),
            _ => last_target(calls.drop_last(), id),
        }
    }
}

/// A row is replaced by one under its own key.
proof fn lemma_updated(q: QueueView, id: Seq<char>, row: PendingRowView, other: Seq<char>)
    requires
        ascending::<PendingRow>(q.pending),
        row.id == id,
    ensures
        ascending::<PendingRow>(q.updated(id, row).pending),
        q.updated(id, row).row(other) == if other == id && q.row(id) is Some {
            Some(row)
        } else {
            q.row(other)
        },
{
    lemma_put_rows::<PendingRow>(q.pending, row);
    lemma_put_lookup::<PendingRow>(q.pending, row, other);
}

/// What one call does to the row under `other`.
proof fn lemma_after_call(q: QueueView, call: QueueCall, other: Seq<char>)
    requires
        ascending::<PendingRow>(q.pending),
    ensures
        ascending::<PendingRow>(q.after_call(call).pending),
        q.after_call(call).row(other) == match call {
            QueueCall::Enqueue { id, query } => if id == other && q.row(id) is None {
                Some(
                    PendingRowView {
                        id,
                        query,
                        state: PendingState::Pending.wire(),
                        attempts: 0,
                        target_id: None,
                        seq: q.seq(),
                    },
                )
            } else {
                q.row(other)
            },
            QueueCall::Claim { n } => q.row(other),
            QueueCall::Resolve { id, target } => match q.row(other) {
                Some(row) if id == other => Some(
                    PendingRowView {
                        state: PendingState::Resolved.wire(),
                        target_id: Some(hyphenated(target)),
                        ..row
                    },
                ),
                _ => q.row(other),
            },
            QueueCall::Miss { id } => match q.row(other) {
                Some(row) if id == other => Some(
                    PendingRowView {
                        state: PendingState::Unresolved.wire(),
                        attempts: (row.attempts + 1) as i64,
                        ..row
                    },
                ),
                _ => q.row(other),
            },
            QueueCall::Release { id } => match q.row(other) {
                Some(row) if id == other => Some(
                    PendingRowView { state: PendingState::Pending.wire(), ..row },
                ),
                _ => q.row(other),
            },
        },
{
    match call {
        QueueCall::Enqueue { id, query } => {
            let row = PendingRowView {
                id,
                query,
                state: PendingState::Pending.wire(),
                attempts: 0,
                target_id: None,
                seq: q.seq(),
            };
            lemma_put_rows::<PendingRow>(q.pending, row);
            lemma_put_lookup::<PendingRow>(q.pending, row, other);
        },
        QueueCall::Claim { n } => {},
        QueueCall::Resolve { id, target } => {
            lemma_lookup_found::<PendingRow>(q.pending, id);
            if let Some(row) = q.row(id) {
                let next = PendingRowView {
                    state: PendingState::Resolved.wire(),
                    target_id: Some(hyphenated(target)),
                    ..row
                };
                lemma_updated(q, id, next, other);
            }
        },
        QueueCall::Miss { id } => {
            lemma_lookup_found::<PendingRow>(q.pending, id);
            if let Some(row) = q.row(id) {
                let next = PendingRowView {
                    state: PendingState::Unresolved.wire(),
                    attempts: (row.attempts + 1) as i64,
                    ..row
                };
                lemma_updated(q, id, next, other);
            }
        },
        QueueCall::Release { id } => {
            lemma_lookup_found::<PendingRow>(q.pending, id);
            if let Some(row) = q.row(id) {
                let next = PendingRowView { state: PendingState::Pending.wire(), ..row };
                lemma_updated(q, id, next, other);
            }
        },
    }
}

/// What is done in two parts is done in one.
pub proof fn histories_split(q: QueueView, a: Seq<QueueCall>, b: Seq<QueueCall>)
    ensures
        q.after_calls(a + b) == q.after_calls(a).after_calls(b),
    decreases b.len(),
{
    if b.len() == 0 {
        assert(a + b =~= a);
    } else {
        assert((a + b).drop_last() =~= a + b.drop_last());
        assert((a + b).last() == b.last());
        histories_split(q, a, b.drop_last());
    }
}

/// Calls on an item that was never enqueued make no item of it, and keep the rows
/// in key order.
pub proof fn unknown_items_stay_unknown(q: QueueView, calls: Seq<QueueCall>, id: Seq<char>)
    requires
        ascending::<PendingRow>(q.pending),
        q.row(id) is None,
        forall|j: int| 0 <= j < calls.len() ==> !enqueues(#[trigger] calls[j], id),
    ensures
        q.after_calls(calls).row(id) is None,
        ascending::<PendingRow>(q.after_calls(calls).pending),
    decreases calls.len(),
{
    if calls.len() > 0 {
        let front = calls.drop_last();
        assert forall|j: int| 0 <= j < front.len() implies !enqueues(#[trigger] front[j], id) by {
            assert(front[j] == calls[j]);
        }
        unknown_items_stay_unknown(q, front, id);
        assert(!enqueues(calls[calls.len() - 1], id));
        lemma_after_call(q.after_calls(front), calls.last(), id);
    }
}

/// What is stored of an item that was enqueued once `calls` have followed.
proof fn lemma_history(q: QueueView, id: Seq<char>, query: Seq<char>, calls: Seq<QueueCall>)
    requires
        ascending::<PendingRow>(q.pending),
        q.row(id) is None,
        misses(calls, id) <= i64::MAX,
    ensures
        ({
            let after = q.enqueued(id, query).after_calls(calls);
            &&& ascending::<PendingRow>(after.pending)
            &&& after.row(id) matches Some(row) && {
                &&& row.id == id
                &&& row.query == query
                &&& row.state == last_state(calls, id).wire()
                &&& row.attempts == misses(calls, id)
                &&& row.target_id == match last_target(calls, id) {
                    Some(target) => Some(hyphenated(target)),
                    None => None,
                }
                &&& row.seq == q.seq()
            }
        }),
    decreases calls.len(),
{
    if calls.len() == 0 {
        lemma_after_call(q, QueueCall::Enqueue { id, query }, id);
    } else {
        lemma_history(q, id, query, calls.drop_last());
        lemma_after_call(
            q.enqueued(id, query).after_calls(calls.drop_last()),
            calls.last(),
            id,
        );
    }
}

/// An item tells its whole history: after any calls it has the query that it was
/// first enqueued with, one attempt for each time since that it turned out to be
/// unresolvable, the state of the last outcome, and the target that it was last
/// resolved to.
pub proof fn items_tell_their_history(
    q: QueueView,
    calls: Seq<QueueCall>,
    k: int,
    id: Seq<char>,
    query: Seq<char>,
)
    requires
        ascending::<PendingRow>(q.pending),
        q.row(id) is None,
        0 <= k < calls.len(),
        forall|j: int| 0 <= j < k ==> !enqueues(#[trigger] calls[j], id),
        calls[k] == (QueueCall::Enqueue { id, query }),
        misses(calls.skip(k + 1), id) <= i64::MAX,
    ensures
        q.after_calls(calls).row(id) matches Some(row) && row.item() == Ok::<_, RowFault>(
            PendingView {
                id,
                query,
                state: last_state(calls.skip(k + 1), id),
                attempts: misses(calls.skip(k + 1), id) as i64,
                target_id: last_target(calls.skip(k + 1), id),
            },
        ),
{
    let before = calls.take(k);
    let since = calls.skip(k + 1);
    assert forall|j: int| 0 <= j < before.len() implies !enqueues(#[trigger] before[j], id) by {
        assert(before[j] == calls[j]);
    }
    unknown_items_stay_unknown(q, before, id);
    let start = q.after_calls(before);
    let upto = calls.take(k + 1);
    assert(upto.drop_last() =~= before && upto.last() == calls[k]);
    assert(calls =~= upto + since);
    histories_split(q, upto, since);
    lemma_history(start, id, query, since);
    last_state(since, id).wire_round_trips();
    if let Some(target) = last_target(since, id) {
        id_text_round_trips(target);
    }
}

// ── Order ────────────────────────────────────────────────────────────────────

/// Whether every item has a number of its own, below the next one to draw.
pub open spec fn numbered(q: QueueView) -> bool {
    &&& forall|x: PendingRowView| #[trigger] q.pending.contains(x) ==> x.seq < q.seq()
    &&& forall|x: PendingRowView, y: PendingRowView| #[trigger]
        q.pending.contains(x) && #[trigger] q.pending.contains(y) && x.seq == y.seq ==> x == y
}

/// A new item draws a number above all others, so that items are numbered in the
/// order in which they were enqueued.
pub proof fn enqueue_numbers_in_order(q: QueueView, id: Seq<char>, query: Seq<char>)
    requires
        ascending::<PendingRow>(q.pending),
        numbered(q),
        q.row(id) is None,
        q.seq() < u64::MAX,
    ensures
        numbered(q.enqueued(id, query)),
        forall|x: PendingRowView| #[trigger]
            q.pending.contains(x) ==> (q.enqueued(id, query).row(id) matches Some(row) && x.seq
                < row.seq),
{
    let row = PendingRowView {
        id,
        query,
        state: PendingState::Pending.wire(),
        attempts: 0,
        target_id: None,
        seq: q.seq(),
    };
    let next = q.enqueued(id, query);
    lemma_put_rows::<PendingRow>(q.pending, row);
    lemma_put_lookup::<PendingRow>(q.pending, row, id);
    assert forall|x: PendingRowView| #[trigger] next.pending.contains(x) implies x == row
        || q.pending.contains(x) by {}
}

/// Resolving an item, giving it up and putting it back keep its number, and so
/// the numbering.
pub proof fn outcomes_keep_numbers(q: QueueView, id: Seq<char>, target: u128)
    requires
        ascending::<PendingRow>(q.pending),
        numbered(q),
    ensures
        numbered(q.resolved(id, target)),
        numbered(q.unresolved(id)),
        numbered(q.released(id)),
{
    if let Some(row) = q.row(id) {
        lemma_lookup_found::<PendingRow>(q.pending, id);
        lemma_updated_numbers(
            q,
            id,
            PendingRowView {
                state: PendingState::Resolved.wire(),
                target_id: Some(hyphenated(target)),
                ..row
            },
        );
        lemma_updated_numbers(
            q,
            id,
            PendingRowView {
                state: PendingState::Unresolved.wire(),
                attempts: (row.attempts + 1) as i64,
                ..row
            },
        );
        lemma_updated_numbers(
            q,
            id,
            PendingRowView { state: PendingState::Pending.wire(), ..row },
        );
    }
}

proof fn lemma_updated_numbers(q: QueueView, id: Seq<char>, row: PendingRowView)
    requires
        ascending::<PendingRow>(q.pending),
        numbered(q),
        q.row(id) is Some,
        row.id == id,
        row.seq == q.row(id)->Some_0.seq,
    ensures
        numbered(q.updated(id, row)),
{
    lemma_lookup_found::<PendingRow>(q.pending, id);
    lemma_put_rows::<PendingRow>(q.pending, row);
    let old_row = q.row(id)->Some_0;
    let next = q.updated(id, row);
    assert(q.pending.contains(old_row));
    assert forall|x: PendingRowView| #[trigger] next.pending.contains(x) implies x == row || (
    q.pending.contains(x) && x.id != id) by {}
    assert forall|x: PendingRowView, y: PendingRowView| #[trigger]
        next.pending.contains(x) && #[trigger] next.pending.contains(y) && x.seq == y.seq implies x
        == y by {
        if x == row && y != row {
            assert(q.pending.contains(y));
            assert(y == old_row);
        }
        if y == row && x != row {
            assert(q.pending.contains(x));
            assert(x == old_row);
        }
    }
}

/// The rows that wait.
pub proof fn lemma_waiting(s: Seq<PendingRowView>)
    ensures
        forall|x: PendingRowView| #[trigger]
            waiting(s).contains(x) <==> (s.contains(x) && x.waits()),
    decreases s.len(),
{
    if s.len() > 0 {
        let front = s.drop_last();
        let last = s.last();
        lemma_waiting(front);
        assert(s =~= front.push(last));
        assert forall|x: PendingRowView| #[trigger]
            waiting(s).contains(x) <==> (s.contains(x) && x.waits()) by {
            vstd::seq_lib::lemma_seq_contains_after_push(front, last, x);
            vstd::seq_lib::lemma_seq_contains_after_push(waiting(front), last, x);
        }
    }
}

proof fn lemma_items(s: Seq<PendingRowView>, n: int)
    requires
        0 <= n <= s.len(),
        forall|i: int| 0 <= i < s.len() ==> (#[trigger] s[i]).item() is Ok,
    ensures
        items(s, n) matches Ok(list) && list.len() == n && forall|i: int|
            0 <= i < n ==> s[i].item() == Ok::<_, RowFault>(#[trigger] list[i]),
    decreases n,
{
    if n > 0 {
        lemma_items(s, n - 1);
        assert(s[n - 1].item() is Ok);
    }
}

/// Claiming hands out items that wait, first come first served: the rows behind
/// the items are in the order of their numbers, at most `n`, and all that wait
/// where `n` allows.
pub proof fn claims_are_first_come_first_served(q: QueueView, n: int)
    requires
        n >= 0,
        forall|x: PendingRowView| #[trigger] q.pending.contains(x) ==> x.item() is Ok,
    ensures
        q.claimed(n) matches Ok(list) && ({
            let rows = sorted::<PendingRow>(waiting(q.pending));
            &&& list.len() <= n
            &&& list.len() <= waiting(q.pending).len()
            &&& list.len() == n || list.len() == waiting(q.pending).len()
            &&& forall|i: int, j: int|
                0 <= i < j < rows.len() ==> (#[trigger] rows[i]).seq <= (#[trigger] rows[j]).seq
            &&& forall|i: int|
                0 <= i < list.len() ==> {
                    &&& rows[i].item() == Ok::<_, RowFault>(#[trigger] list[i])
                    &&& q.pending.contains(rows[i])
                    &&& list[i].state == PendingState::Pending
                }
        }),
{
    let w = waiting(q.pending);
    let rows = sorted::<PendingRow>(w);
    lemma_waiting(q.pending);
    lemma_sorted::<PendingRow>(w);
    PendingState::Pending.wire_round_trips();
    assert forall|i: int| 0 <= i < rows.len() implies (#[trigger] rows[i]).item() is Ok
        && q.pending.contains(rows[i]) && rows[i].waits() by {
        assert(rows.contains(rows[i]));
        lemma_sorted_contains::<PendingRow>(w, rows[i]);
    }
    let m = if n < rows.len() {
        n
    } else {
        rows.len() as int
    };
    lemma_items(rows, m);
    assert forall|i: int, j: int| 0 <= i < j < rows.len() implies (#[trigger] rows[i]).seq <= (
    #[trigger] rows[j]).seq by {
        assert(!PendingRow::after(rows[i], rows[j]));
    }
}

} // verus!
