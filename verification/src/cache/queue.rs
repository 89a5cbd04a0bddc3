//! The queue of pending work, in memory.
//!
//! An item waits under the caller's id until it is resolved or known not to be
//! resolvable. Only the latter counts as an attempt: a failure that may pass
//! leaves the item waiting, with the attempts it had.

use vstd::prelude::*;

use crate::cache::{PendingItem, PendingState, PendingView, QueueError};
use crate::identity::{hyphenated, id_of_text, id_text, parse_id};
use crate::order::{sort_stably, sorted, views, Sortable};
use crate::table::{ascending, lookup, put, put_rows, Row, Table};
use crate::text::same_text;
use crate::types::{copy_opt, opt_text};

verus! {

// ── Rows ─────────────────────────────────────────────────────────────────────

/// The view of a [`PendingRow`].
#[verifier::ext_equal]
pub struct PendingRowView {
    pub id: Seq<char>,
    pub query: Seq<char>,
    pub state: Seq<char>,
    pub attempts: i64,
    pub target_id: Option<Seq<char>>,
    pub seq: u64,
}

/// A row of the queue table.
#[derive(Debug, Eq, PartialEq)]
pub struct PendingRow {
    /// The key: the caller's id of the item.
    pub id: String,
    /// The name to resolve.
    pub query: String,
    /// The stored form of its state.
    pub state: String,
    /// How often it turned out to be unknown or ambiguous.
    pub attempts: i64,
    /// The text of the id of the target that it was resolved to.
    pub target_id: Option<String>,
    /// The number it drew when it was enqueued.
    pub seq: u64,
}

impl View for PendingRow {
    type V = PendingRowView;

    open spec fn view(&self) -> PendingRowView {
        PendingRowView {
            id: self.id@,
            query: self.query@,
            state: self.state@,
            attempts: self.attempts,
            target_id: opt_text(self.target_id),
            seq: self.seq,
        }
    }
}

impl Row for PendingRow {
    open spec fn key_of(v: PendingRowView) -> Seq<char> {
        v.id
    }

    fn key(&self) -> (k: &str) {
        self.id.as_str()
    }

    fn copy(&self) -> (r: Self) {
        PendingRow {
            id: self.id.clone(),
            query: self.query.clone(),
            state: self.state.clone(),
            attempts: self.attempts,
            target_id: copy_opt(&self.target_id),
            seq: self.seq,
        }
    }
}

/// Items are handed out in the order of their numbers.
impl Sortable for PendingRow {
    open spec fn after(a: PendingRowView, b: PendingRowView) -> bool {
        a.seq > b.seq
    }

    proof fn lemma_after_irreflexive(a: PendingRowView) {
    }

    proof fn lemma_not_after_transitive(a: PendingRowView, b: PendingRowView, c: PendingRowView) {
    }

    proof fn lemma_after_asymmetric(a: PendingRowView, b: PendingRowView) {
    }

    fn is_after(&self, other: &Self) -> (r: bool) {
        self.seq > other.seq
    }
}

/// What makes a row unreadable.
pub enum RowFault {
    /// Its state is outside the closed set.
    State(Seq<char>),
    /// Its target id is no UUID.
    TargetId(Seq<char>),
}

impl PendingRowView {
    /// The item that a row is read back as.
    pub open spec fn item(self) -> Result<PendingView, RowFault> {
        match PendingState::of_wire(self.state) {
            None => Err(RowFault::State(self.state)),
            Some(state) => match self.target_id {
                None => Ok(
                    PendingView {
                        id: self.id,
                        query: self.query,
                        state,
                        attempts: self.attempts,
                        target_id: None,
                    },
                ),
                Some(text) => match id_of_text(text) {
                    None => Err(RowFault::TargetId(text)),
                    Some(target) => Ok(
                        PendingView {
                            id: self.id,
                            query: self.query,
                            state,
                            attempts: self.attempts,
                            target_id: Some(target),
                        },
                    ),
                },
            },
        }
    }

    /// Whether the item waits to be resolved.
    pub open spec fn waits(self) -> bool {
        self.state == PendingState::Pending.wire()
    }
}

/// Whether `e` reports `fault`.
pub open spec fn reports(e: QueueError, fault: RowFault) -> bool {
    match fault {
        RowFault::State(text) => e matches QueueError::InvalidState(t) && t@ == text,
        RowFault::TargetId(text) => e matches QueueError::InvalidUuid(t, _) && t@ == text,
    }
}

impl PendingRow {
    /// The item that this row is read back as.
    pub fn to_item(&self) -> (r: Result<PendingItem, QueueError>)
        ensures
            match r {
                Ok(item) => self@.item() == Ok::<_, RowFault>(item@),
                Err(e) => self@.item() matches Err(fault) && reports(e, fault),
            },
    {
        let state = match PendingState::from_wire(self.state.as_str()) {
            Some(s) => s,
            None => {
                return Err(QueueError::InvalidState(self.state.clone()));
            },
        };
        let target_id = match &self.target_id {
            None => None,
            Some(text) => match parse_id(text.as_str()) {
                Ok(id) => Some(id),
                Err(e) => {
                    return Err(QueueError::InvalidUuid(text.clone(), e));
                },
            },
        };
        Ok(
            PendingItem {
                id: self.id.clone(),
                query: self.query.clone(),
                state,
                attempts: self.attempts,
                target_id,
            },
        )
    }

    fn is_waiting(&self) -> (r: bool)
        ensures
            r == self@.waits(),
    {
        same_text(self.state.as_str(), PendingState::Pending.as_wire())
    }
}

// ── The state of the queue ───────────────────────────────────────────────────

/// What the queue holds: its rows by key, and the next number to draw.
#[verifier::ext_equal]
pub struct QueueView {
    pub pending: Seq<PendingRowView>,
    pub next_seq: Option<u64>,
}

/// The rows of `s` that wait.
pub open spec fn waiting(s: Seq<PendingRowView>) -> Seq<PendingRowView>
    decreases s.len(),
{
    if s.len() == 0 {
        s
    } else if s.last().waits() {
        waiting(s.drop_last()).push(s.last())
    } else {
        waiting(s.drop_last())
    }
}

/// The items of the first `n` rows of `s`; the fault of the first that is
/// unreadable.
pub open spec fn items(s: Seq<PendingRowView>, n: int) -> Result<Seq<PendingView>, RowFault>
    decreases n,
{
    if n <= 0 {
        Ok(Seq::empty())
    } else {
        match items(s, n - 1) {
            Err(fault) => Err(fault),
            Ok(front) => match s[n - 1].item() {
                Ok(item) => Ok(front.push(item)),
                Err(fault) => Err(fault),
            },
        }
    }
}

impl QueueView {
    /// The number that the next item draws.
    pub open spec fn seq(self) -> u64 {
        match self.next_seq {
            Some(n) => n,
            None => 0,
        }
    }

    /// The row under `id`.
    pub open spec fn row(self, id: Seq<char>) -> Option<PendingRowView> {
        lookup::<PendingRow>(self.pending, id)
    }

    /// The state after `query` was enqueued under `id`: nothing changes where
    /// the id is there already.
    pub open spec fn enqueued(self, id: Seq<char>, query: Seq<char>) -> Self {
        match self.row(id) {
            Some(_) => self,
            None => QueueView {
                pending: put::<PendingRow>(
                    self.pending,
                    PendingRowView {
                        id,
                        query,
                        state: PendingState::Pending.wire(),
                        attempts: 0,
                        target_id: None,
                        seq: self.seq(),
                    },
                ),
                next_seq: Some((self.seq() + 1) as u64),
            },
        }
    }

    /// The state after the row under `id` was replaced by `row`; nothing changes
    /// where there is none.
    pub open spec fn updated(self, id: Seq<char>, row: PendingRowView) -> Self {
        match self.row(id) {
            Some(_) => QueueView {
                pending: put::<PendingRow>(self.pending, row),
                next_seq: self.next_seq,
            },
            None => self,
        }
    }

    /// The state after the item under `id` was resolved to `target`.
    pub open spec fn resolved(self, id: Seq<char>, target: u128) -> Self {
        match self.row(id) {
            Some(row) => self.updated(
                id,
                PendingRowView {
                    state: PendingState::Resolved.wire(),
                    target_id: Some(hyphenated(target)),
                    ..row
                },
            ),
            None => self,
        }
    }

    /// The state after the item under `id` turned out to be unresolvable.
    pub open spec fn unresolved(self, id: Seq<char>) -> Self {
        match self.row(id) {
            Some(row) => self.updated(
                id,
                PendingRowView {
                    state: PendingState::Unresolved.wire(),
                    attempts: (row.attempts + 1) as i64,
                    ..row
                },
            ),
            None => self,
        }
    }

    /// The state after the item under `id` was put back to wait.
    pub open spec fn released(self, id: Seq<char>) -> Self {
        match self.row(id) {
            Some(row) => self.updated(
                id,
                PendingRowView { state: PendingState::Pending.wire(), ..row },
            ),
            None => self,
        }
    }

    /// The items that are handed out when up to `n` are claimed: those that
    /// wait, in the order in which they were enqueued.
    pub open spec fn claimed(self, n: int) -> Result<Seq<PendingView>, RowFault> {
        let rows = sorted::<PendingRow>(waiting(self.pending));
        items(
            rows,
            if n < rows.len() {
                n
            } else {
                rows.len() as int
            },
        )
    }
}

proof fn lemma_items_stop(s: Seq<PendingRowView>, n: int, m: int)
    requires
        n <= m,
        items(s, n) is Err,
    ensures
        items(s, m) == items(s, n),
    decreases m - n,
{
    if n < m {
        lemma_items_stop(s, n, m - 1);
    }
}

// ── The queue ────────────────────────────────────────────────────────────────

/// The queue table, and the next number to draw.
pub struct QueueTables {
    pending: Table<PendingRow>,
    next_seq: Option<u64>,
}

impl View for QueueTables {
    type V = QueueView;

    closed spec fn view(&self) -> QueueView {
        QueueView { pending: self.pending@, next_seq: self.next_seq }
    }
}

impl QueueTables {
    /// Whether the rows are in key order.
    pub open spec fn wf(&self) -> bool {
        ascending::<PendingRow>(self@.pending)
    }

    /// An empty queue.
    pub fn new() -> (q: Self)
        ensures
            q.wf(),
            q@ == (QueueView { pending: Seq::empty(), next_seq: None }),
    {
        QueueTables { pending: Table::new(), next_seq: None }
    }

    /// The queue of the given rows; of two rows with one key the later stays.
    pub fn load(rows: Vec<PendingRow>, next_seq: Option<u64>) -> (q: Self)
        ensures
            q.wf(),
            q@.pending == put_rows::<PendingRow>(Seq::empty(), views(rows@), rows@.len() as int),
            q@.next_seq == next_seq,
    {
        QueueTables { pending: Table::from_rows(rows), next_seq }
    }

    /// The row under `id`, to be written back.
    pub fn row(&self, id: &str) -> (r: Option<PendingRow>)
        requires
            self.wf(),
        ensures
            match r {
                Some(row) => self@.row(id@) == Some(row@),
                None => self@.row(id@) is None,
            },
    {
        match self.pending.get(id) {
            Some(row) => Some(row.copy()),
            None => None,
        }
    }

    /// The next number to draw, to be written back.
    pub fn next_seq(&self) -> (r: Option<u64>)
        ensures
            r == self@.next_seq,
    {
        self.next_seq
    }

    /// Enqueue `query` under `id`, unless the id is there already.
    pub fn enqueue(&mut self, id: &str, query: &str)
        requires
            old(self).wf(),
            old(self)@.row(id@) is Some || old(self)@.seq() < u64::MAX,
        ensures
            final(self).wf(),
            final(self)@ == old(self)@.enqueued(id@, query@),
    {
        if self.pending.get(id).is_none() {
            let seq: u64 = match self.next_seq {
                Some(n) => n,
                None => 0,
            };
            self.next_seq = Some(seq + 1);
            self.pending.put(
                PendingRow {
                    id: id.to_owned(),
                    query: query.to_owned(),
                    state: PendingState::Pending.as_wire().to_owned(),
                    attempts: 0,
                    target_id: None,
                    seq,
                },
            );
        }
    }

    /// Hand out up to `n` items that wait, in the order in which they were
    /// enqueued. They stay in the queue.
    pub fn claim_pending(&self, n: usize) -> (r: Result<Vec<PendingItem>, QueueError>)
        requires
            self.wf(),
        ensures
            match r {
                Ok(list) => self@.claimed(n as int) == Ok::<_, RowFault>(views(list@)),
                Err(e) => self@.claimed(n as int) matches Err(fault) && reports(e, fault),
            },
    {
        let ghost s = self@.pending;
        let mut rows: Vec<PendingRow> = Vec::new();
        let mut i: usize = 0;
        assert(s.take(0) =~= Seq::empty());
        assert(views(rows@) =~= Seq::empty());
        while i < self.pending.len()
            invariant
                s == self.pending@,
                i <= s.len(),
                views(rows@) == waiting(s.take(i as int)),
            decreases s.len() - i,
        {
            let row = self.pending.row(i);
            let ghost done = rows@;
            proof {
                assert(s.take(i + 1).drop_last() =~= s.take(i as int));
                assert(s.take(i + 1).last() == row@);
            }
            if row.is_waiting() {
                let item = row.copy();
                rows.push(item);
                assert(views(rows@) =~= views(done).push(item@));
            }
            i += 1;
        }
        assert(s.take(s.len() as int) =~= s);
        let list = sort_stably(rows);
        let ghost all = sorted::<PendingRow>(waiting(s));
        assert(views(list@).len() == list@.len());
        let count: usize = if n < list.len() {
            n
        } else {
            list.len()
        };
        let mut out: Vec<PendingItem> = Vec::new();
        let mut j: usize = 0;
        assert(views(out@) =~= Seq::empty());
        while j < count
            invariant
                j <= count <= list@.len(),
                views(list@) == all,
                self@.claimed(n as int) == items(all, count as int),
                items(all, j as int) == Ok::<_, RowFault>(views(out@)),
            decreases count - j,
        {
            let ghost done = out@;
            assert(list@[j as int]@ == all[j as int]);
            match list[j].to_item() {
                Ok(item) => {
                    out.push(item);
                    assert(views(out@) =~= views(done).push(item@));
                },
                Err(e) => {
                    proof {
                        lemma_items_stop(all, j + 1, count as int);
                    }
                    return Err(e);
                },
            }
            j += 1;
        }
        Ok(out)
    }

    /// Record that the item under `id` was resolved to a target. Its attempts
    /// stay as they are.
    pub fn mark_resolved(&mut self, id: &str, target_id: u128)
        requires
            old(self).wf(),
        ensures
            final(self).wf(),
            final(self)@ == old(self)@.resolved(id@, target_id),
    {
        if let Some(mut row) = self.row(id) {
            row.state = PendingState::Resolved.as_wire().to_owned();
            row.target_id = Some(id_text(target_id));
            self.pending.put(row);
        }
    }

    /// Record that the item under `id` is unknown or ambiguous: one more
    /// attempt.
    pub fn mark_unresolved(&mut self, id: &str)
        requires
            old(self).wf(),
            old(self)@.row(id@) matches Some(row) ==> row.attempts < i64::MAX,
        ensures
            final(self).wf(),
            final(self)@ == old(self)@.unresolved(id@),
    {
        if let Some(mut row) = self.row(id) {
            row.state = PendingState::Unresolved.as_wire().to_owned();
            row.attempts = row.attempts + 1;
            self.pending.put(row);
        }
    }

    /// Put the item under `id` back to wait. Its attempts stay as they are.
    pub fn release(&mut self, id: &str)
        requires
            old(self).wf(),
        ensures
            final(self).wf(),
            final(self)@ == old(self)@.released(id@),
    {
        if let Some(mut row) = self.row(id) {
            row.state = PendingState::Pending.as_wire().to_owned();
            self.pending.put(row);
        }
    }

    /// The item under `id`.
    pub fn get(&self, id: &str) -> (r: Result<Option<PendingItem>, QueueError>)
        requires
            self.wf(),
        ensures
            match self@.row(id@) {
                None => r is Ok && r->Ok_0 is None,
                Some(row) => match r {
                    Ok(Some(item)) => row.item() == Ok::<_, RowFault>(item@),
                    Ok(None) => false,
                    Err(e) => row.item() matches Err(fault) && reports(e, fault),
                },
            },
    {
        match self.pending.get(id) {
            None => Ok(None),
            Some(row) => match row.to_item() {
                Ok(item) => Ok(Some(item)),
                Err(e) => Err(e),
            },
        }
    }

    /// How many items wait.
    pub fn pending_count(&self) -> (n: usize)
        requires
            self.wf(),
        ensures
            n == waiting(self@.pending).len(),
    {
        let ghost s = self@.pending;
        let mut n: usize = 0;
        let mut i: usize = 0;
        assert(s.take(0) =~= Seq::empty());
        while i < self.pending.len()
            invariant
                s == self.pending@,
                i <= s.len(),
                n <= i,
                n == waiting(s.take(i as int)).len(),
            decreases s.len() - i,
        {
            let row = self.pending.row(i);
            proof {
                assert(s.take(i + 1).drop_last() =~= s.take(i as int));
                assert(s.take(i + 1).last() == row@);
            }
            if row.is_waiting() {
                n += 1;
            }
            i += 1;
        }
        assert(s.take(s.len() as int) =~= s);
        n
    }
}

} // verus!
