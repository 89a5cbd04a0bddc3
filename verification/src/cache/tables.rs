//! The tables of the identity store, in memory.

use std::collections::HashMap;
use vstd::prelude::*;
use vstd::std_specs::hash::*;

use crate::cache::state::{existing_row, decide, distinct_forms, first_with_oid, is_utc_time, not_owned_by, put_aliases, rewritten, stored_aliases, upserts, with_primary, AliasRow, AliasRowView, CacheView, TargetRow, TargetRowView, UpsertView};
use crate::cache::{CacheError, UpsertOutcome};
use crate::identity::{hyphenated, id_text, parse_id, random_ids, target_id, target_id_from_designation};
use crate::normalize::{normalize, normalized};
use crate::order::{before, views};
use crate::table::{ascending, has_key, keyed_at, lemma_key_unique, lemma_lookup_at, lemma_lookup_found, lemma_lookup_iff, lemma_put_lookup, lemma_put_rows, lemma_remove_rows, lemma_same_rows, lookup, put, put_rows, remove, Row, Table};
use crate::text::{same_text, texts};
use crate::types::{copy_aliases, find_designation, normalizes, AliasKind, AliasView, IdentityView, ResolvedAlias, ResolvedIdentity, TargetSource};

verus! {

// ── Changes ──────────────────────────────────────────────────────────────────

/// The view of a [`CacheChange`].
pub enum ChangeView {
    PutTarget(TargetRowView),
    PutAlias(AliasRowView),
    RemoveAlias(Seq<char>),
}

/// One change of the tables.
#[derive(Debug, PartialEq)]
pub enum CacheChange {
    /// Put a target row under its key.
    PutTarget(TargetRow),
    /// Put an alias row under its key.
    PutAlias(AliasRow),
    /// Remove the alias row with this key.
    RemoveAlias(String),
}

impl View for CacheChange {
    type V = ChangeView;

    open spec fn view(&self) -> ChangeView {
        match self {
            CacheChange::PutTarget(row) => ChangeView::PutTarget(row@),
            CacheChange::PutAlias(row) => ChangeView::PutAlias(row@),
            CacheChange::RemoveAlias(key) => ChangeView::RemoveAlias(key@),
        }
    }
}

/// The state after one change.
pub open spec fn applied(state: CacheView, change: ChangeView) -> CacheView {
    match change {
        ChangeView::PutTarget(row) => CacheView {
            targets: put::<TargetRow>(state.targets, row),
            aliases: state.aliases,
        },
        ChangeView::PutAlias(row) => CacheView {
            targets: state.targets,
            aliases: put::<AliasRow>(state.aliases, row),
        },
        ChangeView::RemoveAlias(key) => CacheView {
            targets: state.targets,
            aliases: remove::<AliasRow>(state.aliases, key),
        },
    }
}

/// The state after a list of changes, in order.
pub open spec fn replayed(state: CacheView, log: Seq<ChangeView>) -> CacheView
    decreases log.len(),
{
    if log.len() == 0 {
        state
    } else {
        applied(replayed(state, log.drop_last()), log.last())
    }
}

/// Replaying two lists after each other is replaying their concatenation.
pub proof fn replay_composes(state: CacheView, a: Seq<ChangeView>, b: Seq<ChangeView>)
    ensures
        replayed(state, a + b) == replayed(replayed(state, a), b),
    decreases b.len(),
{
    if b.len() == 0 {
        assert(a + b =~= a);
    } else {
        replay_composes(state, a, b.drop_last());
        assert((a + b).drop_last() =~= a + b.drop_last());
    }
}

// ── The tables ───────────────────────────────────────────────────────────────

/// The two tables, and the log of the changes made to them.
pub struct CacheTables {
    targets: Table<TargetRow>,
    aliases: Table<AliasRow>,
    journal: Vec<CacheChange>,
}

impl View for CacheTables {
    type V = CacheView;

    closed spec fn view(&self) -> CacheView {
        CacheView { targets: self.targets@, aliases: self.aliases@ }
    }
}

impl CacheTables {
    /// The log of changes.
    pub closed spec fn journal(&self) -> Seq<ChangeView> {
        views(self.journal@)
    }

    /// Whether both tables are in key order.
    pub open spec fn wf(&self) -> bool {
        ascending::<TargetRow>(self@.targets) && ascending::<AliasRow>(self@.aliases)
    }

    /// Whether `self` comes from `start` by changes that are all in the log: its
    /// log goes on from that of `start`, and replaying the new part on `start`
    /// gives `self`.
    pub open spec fn logs_since(&self, start: &CacheTables) -> bool {
        let n = start.journal().len() as int;
        &&& n <= self.journal().len()
        &&& self.journal().take(n) == start.journal()
        &&& replayed(start@, self.journal().skip(n)) == self@
    }

    /// Empty tables.
    pub fn new() -> (r: Self)
        ensures
            r.wf(),
            r@ == (CacheView { targets: Seq::empty(), aliases: Seq::empty() }),
            r.journal() == Seq::<ChangeView>::empty(),
    {
        let r = CacheTables { targets: Table::new(), aliases: Table::new(), journal: Vec::new() };
        assert(r.journal() =~= Seq::empty());
        r
    }

    /// The tables of the given rows; of two rows with one key the later stays.
    pub fn load(targets: Vec<TargetRow>, aliases: Vec<AliasRow>) -> (r: Self)
        ensures
            r.wf(),
            r@.targets == put_rows::<TargetRow>(
                Seq::empty(),
                views(targets@),
                targets@.len() as int,
            ),
            r@.aliases == put_rows::<AliasRow>(
                Seq::empty(),
                views(aliases@),
                aliases@.len() as int,
            ),
            r.journal() == Seq::<ChangeView>::empty(),
    {
        let r = CacheTables {
            targets: Table::from_rows(targets),
            aliases: Table::from_rows(aliases),
            journal: Vec::new(),
        };
        assert(r.journal() =~= Seq::empty());
        r
    }

    /// The target table.
    pub fn targets(&self) -> (t: &Table<TargetRow>)
        requires
            self.wf(),
        ensures
            t.wf(),
            t@ == self@.targets,
    {
        &self.targets
    }

    /// The alias table.
    pub fn aliases(&self) -> (t: &Table<AliasRow>)
        requires
            self.wf(),
        ensures
            t.wf(),
            t@ == self@.aliases,
    {
        &self.aliases
    }

    /// Take the log of changes, leaving it empty.
    pub fn take_changes(&mut self) -> (log: Vec<CacheChange>)
        requires
            old(self).wf(),
        ensures
            final(self).wf(),
            final(self)@ == old(self)@,
            views(log@) == old(self).journal(),
            final(self).journal() == Seq::<ChangeView>::empty(),
    {
        let mut log: Vec<CacheChange> = Vec::new();
        std::mem::swap(&mut log, &mut self.journal);
        assert(self.journal() =~= Seq::empty());
        log
    }

    /// A copy of the tables and of the log.
    fn copy(&self) -> (r: Self)
        requires
            self.wf(),
        ensures
            r.wf(),
            r@ == self@,
            r.journal() == self.journal(),
    {
        let mut journal: Vec<CacheChange> = Vec::new();
        let mut i: usize = 0;
        while i < self.journal.len()
            invariant
                i <= self.journal@.len(),
                views(journal@) == views(self.journal@).take(i as int),
            decreases self.journal@.len() - i,
        {
            let ghost done = journal@;
            let change = match &self.journal[i] {
                CacheChange::PutTarget(row) => CacheChange::PutTarget(row.copy()),
                CacheChange::PutAlias(row) => CacheChange::PutAlias(row.copy()),
                CacheChange::RemoveAlias(key) => CacheChange::RemoveAlias(key.clone()),
            };
            assert(change@ == views(self.journal@)[i as int]);
            journal.push(change);
            proof {
                assert(views(journal@) =~= views(done).push(change@));
                assert(views(self.journal@).take(i + 1) =~= views(self.journal@).take(
                    i as int,
                ).push(change@));
            }
            i += 1;
        }
        assert(views(self.journal@).take(self.journal@.len() as int) =~= views(self.journal@));
        CacheTables { targets: self.targets.copy(), aliases: self.aliases.copy(), journal }
    }

    fn put_target(&mut self, row: TargetRow)
        requires
            old(self).wf(),
        ensures
            final(self).wf(),
            final(self)@ == applied(old(self)@, ChangeView::PutTarget(row@)),
            final(self).journal() == old(self).journal().push(ChangeView::PutTarget(row@)),
    {
        let ghost log = self.journal@;
        let ghost v = row@;
        let entry = CacheChange::PutTarget(row.copy());
        self.targets.put(row);
        self.journal.push(entry);
        assert(views(self.journal@) =~= views(log).push(ChangeView::PutTarget(v)));
    }

    pub(crate) fn put_alias(&mut self, row: AliasRow)
        requires
            old(self).wf(),
        ensures
            final(self).wf(),
            final(self)@ == applied(old(self)@, ChangeView::PutAlias(row@)),
            final(self).journal() == old(self).journal().push(ChangeView::PutAlias(row@)),
    {
        let ghost log = self.journal@;
        let ghost v = row@;
        let entry = CacheChange::PutAlias(row.copy());
        self.aliases.put(row);
        self.journal.push(entry);
        assert(views(self.journal@) =~= views(log).push(ChangeView::PutAlias(v)));
    }

    pub(crate) fn remove_alias(&mut self, key: &str)
        requires
            old(self).wf(),
        ensures
            final(self).wf(),
            final(self)@ == applied(old(self)@, ChangeView::RemoveAlias(key@)),
            final(self).journal() == old(self).journal().push(ChangeView::RemoveAlias(key@)),
    {
        let ghost log = self.journal@;
        let entry = CacheChange::RemoveAlias(key.to_owned());
        self.aliases.remove(key);
        self.journal.push(entry);
        assert(views(self.journal@) =~= views(log).push(ChangeView::RemoveAlias(key@)));
    }
}

// ── Logging ──────────────────────────────────────────────────────────────────

pub(crate) proof fn lemma_logs_self(t: CacheTables)
    ensures
        t.logs_since(&t),
{
    let n = t.journal().len() as int;
    assert(t.journal().take(n) =~= t.journal());
    assert(t.journal().skip(n) =~= Seq::empty());
}

pub(crate) proof fn lemma_logs_step(start: CacheTables, a: CacheTables, b: CacheTables, change: ChangeView)
    requires
        a.logs_since(&start),
        b.journal() == a.journal().push(change),
        b@ == applied(a@, change),
    ensures
        b.logs_since(&start),
{
    let n = start.journal().len() as int;
    assert(b.journal().take(n) =~= a.journal().take(n));
    assert(b.journal().skip(n) =~= a.journal().skip(n).push(change));
    assert(a.journal().skip(n).push(change).drop_last() =~= a.journal().skip(n));
}

pub(crate) proof fn lemma_logs_chain(start: CacheTables, a: CacheTables, b: CacheTables)
    requires
        a.logs_since(&start),
        b.logs_since(&a),
    ensures
        b.logs_since(&start),
{
    let n = start.journal().len() as int;
    let m = a.journal().len() as int;
    let first = a.journal().skip(n);
    let second = b.journal().skip(m);
    assert(b.journal().take(n) =~= b.journal().take(m).take(n));
    assert(b.journal().skip(n) =~= b.journal().take(m).skip(n) + second);
    replay_composes(start@, first, second);
}

// ── Rows of one owner ────────────────────────────────────────────────────────

/// Whether `keys` names, among the rows of `s`, those that `target` owns.
spec fn names_owned(keys: Seq<Seq<char>>, s: Seq<AliasRowView>, target: Seq<char>) -> bool {
    forall|x: AliasRowView| #[trigger]
        s.contains(x) ==> (keys.contains(x.alias_id) <==> x.target_id == target)
}

/// `s` without the rows of the first `n` of `keys`.
spec fn removed_keys(s: Seq<AliasRowView>, keys: Seq<Seq<char>>, n: int) -> Seq<AliasRowView>
    decreases n,
{
    if n <= 0 {
        s
    } else {
        remove::<AliasRow>(removed_keys(s, keys, n - 1), keys[n - 1])
    }
}

proof fn lemma_removed_keys(s: Seq<AliasRowView>, keys: Seq<Seq<char>>, n: int)
    requires
        ascending::<AliasRow>(s),
        0 <= n <= keys.len(),
    ensures
        ascending::<AliasRow>(removed_keys(s, keys, n)),
        forall|x: AliasRowView|
            #![trigger removed_keys(s, keys, n).contains(x)]
            #![trigger s.contains(x)]
            removed_keys(s, keys, n).contains(x) <==> (s.contains(x) && !keys.take(n).contains(
                x.alias_id,
            )),
    decreases n,
{
    if n > 0 {
        lemma_removed_keys(s, keys, n - 1);
        lemma_remove_rows::<AliasRow>(removed_keys(s, keys, n - 1), keys[n - 1]);
        assert(keys.take(n) =~= keys.take(n - 1).push(keys[n - 1]));
        assert forall|k: Seq<char>|
            keys.take(n).contains(k) <==> (keys.take(n - 1).contains(k) || k == keys[n - 1]) by {
            vstd::seq_lib::lemma_seq_contains_after_push(keys.take(n - 1), keys[n - 1], k);
        }
    } else {
        assert(keys.take(0) =~= Seq::empty());
    }
}

/// The rows that `target` does not own, in key order.
pub proof fn lemma_not_owned(s: Seq<AliasRowView>, target: Seq<char>)
    requires
        ascending::<AliasRow>(s),
    ensures
        ascending::<AliasRow>(not_owned_by(s, target)),
        forall|x: AliasRowView|
            #![trigger not_owned_by(s, target).contains(x)]
            #![trigger s.contains(x)]
            not_owned_by(s, target).contains(x) <==> (s.contains(x) && x.target_id != target),
    decreases s.len(),
{
    if s.len() > 0 {
        let front = s.drop_last();
        let last = s.last();
        assert(s =~= front.push(last));
        assert forall|x: AliasRowView| s.contains(x) <==> (front.contains(x) || x == last) by {
            vstd::seq_lib::lemma_seq_contains_after_push(front, last, x);
        }
        lemma_not_owned(front, target);
        let q = not_owned_by(front, target);
        let p = not_owned_by(s, target);
        if last.target_id != target {
            assert forall|x: AliasRowView| p.contains(x) <==> (q.contains(x) || x == last) by {
                vstd::seq_lib::lemma_seq_contains_after_push(q, last, x);
            }
            assert forall|i: int, j: int| 0 <= i < j < p.len() implies before(
                AliasRow::key_of(#[trigger] p[i]),
                AliasRow::key_of(#[trigger] p[j]),
            ) by {
                assert(p[i] == q[i]);
                if j == p.len() - 1 {
                    assert(q.contains(q[i]));
                    let m = choose|m: int| 0 <= m < front.len() && front[m] == q[i];
                    assert(s[m] == q[i]);
                    assert(before(AliasRow::key_of(s[m]), AliasRow::key_of(s[s.len() - 1])));
                }
            }
        }
    }
}

/// Removing the keys of what `target` owns leaves what it does not own.
proof fn lemma_retire(s: Seq<AliasRowView>, keys: Seq<Seq<char>>, target: Seq<char>)
    requires
        ascending::<AliasRow>(s),
        names_owned(keys, s, target),
    ensures
        removed_keys(s, keys, keys.len() as int) == not_owned_by(s, target),
{
    lemma_removed_keys(s, keys, keys.len() as int);
    lemma_not_owned(s, target);
    assert(keys.take(keys.len() as int) =~= keys);
    lemma_same_rows::<AliasRow>(
        removed_keys(s, keys, keys.len() as int),
        not_owned_by(s, target),
    );
}

/// The rows after aliases have been put in: the new ones, and those under other
/// keys.
pub proof fn lemma_put_aliases(
    s: Seq<AliasRowView>,
    target: Seq<char>,
    aliases: Seq<AliasView>,
    ids: Seq<Seq<char>>,
    n: int,
)
    requires
        ascending::<AliasRow>(s),
        0 <= n <= ids.len(),
        n <= aliases.len(),
    ensures
        ascending::<AliasRow>(put_aliases(s, target, aliases, ids, n)),
        forall|x: AliasRowView| #[trigger]
            put_aliases(s, target, aliases, ids, n).contains(x) ==> if ids.take(n).contains(
                x.alias_id,
            ) {
                x.target_id == target
            } else {
                s.contains(x)
            },
        forall|x: AliasRowView|
            s.contains(x) && !ids.take(n).contains(x.alias_id) ==> #[trigger] put_aliases(
                s,
                target,
                aliases,
                ids,
                n,
            ).contains(x),
        forall|k: Seq<char>| #[trigger]
            ids.take(n).contains(k) ==> has_key::<AliasRow>(
                put_aliases(s, target, aliases, ids, n),
                k,
            ),
    decreases n,
{
    if n > 0 {
        lemma_put_aliases(s, target, aliases, ids, n - 1);
        let q = put_aliases(s, target, aliases, ids, n - 1);
        let row = AliasRowView { alias_id: ids[n - 1], target_id: target, alias: aliases[n - 1] };
        let p = put_aliases(s, target, aliases, ids, n);
        lemma_put_rows::<AliasRow>(q, row);
        assert(ids.take(n) =~= ids.take(n - 1).push(ids[n - 1]));
        assert forall|k: Seq<char>|
            ids.take(n).contains(k) <==> (ids.take(n - 1).contains(k) || k == ids[n - 1]) by {
            vstd::seq_lib::lemma_seq_contains_after_push(ids.take(n - 1), ids[n - 1], k);
        }
        assert forall|k: Seq<char>| #[trigger] ids.take(n).contains(k) implies has_key::<AliasRow>(
            p,
            k,
        ) by {
            lemma_put_lookup::<AliasRow>(q, row, k);
        }
    } else {
        assert(ids.take(0) =~= Seq::empty());
    }
}

impl CacheTables {
    /// The keys of the aliases that `target` owns.
    fn owned_keys(&self, target: &str) -> (keys: Vec<String>)
        requires
            self.wf(),
        ensures
            names_owned(texts(keys@), self@.aliases, target@),
    {
        let mut keys: Vec<String> = Vec::new();
        let ghost s = self@.aliases;
        let mut i: usize = 0;
        assert(s.take(0) =~= Seq::empty());
        while i < self.aliases.len()
            invariant
                s == self.aliases@,
                i <= s.len(),
                forall|k: Seq<char>| #[trigger]
                    texts(keys@).contains(k) <==> exists|j: int|
                        0 <= j < i && (#[trigger] s[j]).alias_id == k && s[j].target_id == target@,
            decreases s.len() - i,
        {
            let row = self.aliases.row(i);
            let ghost done = texts(keys@);
            if same_text(row.target_id.as_str(), target) {
                let key = row.alias_id.clone();
                keys.push(key);
                proof {
                    assert(texts(keys@) =~= done.push(s[i as int].alias_id));
                    assert forall|k: Seq<char>| #[trigger]
                        texts(keys@).contains(k) <==> exists|j: int|
                            0 <= j < i + 1 && (#[trigger] s[j]).alias_id == k && s[j].target_id
                                == target@ by {
                        vstd::seq_lib::lemma_seq_contains_after_push(
                            done,
                            s[i as int].alias_id,
                            k,
                        );
                        if done.contains(k) {
                            let j = choose|j: int|
                                0 <= j < i && (#[trigger] s[j]).alias_id == k && s[j].target_id
                                    == target@;
                            assert(s[j].alias_id == k);
                        }
                        if k == s[i as int].alias_id {
                            assert(s[i as int].target_id == target@);
                        }
                    }
                }
            }
            i += 1;
        }
        proof {
            assert forall|x: AliasRowView| #[trigger] s.contains(x) implies (texts(keys@).contains(
                x.alias_id,
            ) <==> x.target_id == target@) by {
                let m = choose|m: int| 0 <= m < s.len() && s[m] == x;
                if texts(keys@).contains(x.alias_id) {
                    let j = choose|j: int|
                        0 <= j < s.len() && (#[trigger] s[j]).alias_id == x.alias_id
                            && s[j].target_id == target@;
                    lemma_key_unique::<AliasRow>(s, j, m);
                }
                if x.target_id == target@ {
                    assert(s[m].alias_id == x.alias_id);
                }
            }
        }
        keys
    }

    /// Remove the alias rows with the given keys.
    fn retire(&mut self, keys: &Vec<String>)
        requires
            old(self).wf(),
        ensures
            final(self).wf(),
            final(self)@.targets == old(self)@.targets,
            final(self)@.aliases == removed_keys(
                old(self)@.aliases,
                texts(keys@),
                keys@.len() as int,
            ),
            final(self).logs_since(old(self)),
    {
        let ghost start = *self;
        let mut i: usize = 0;
        proof {
            lemma_logs_self(start);
        }
        while i < keys.len()
            invariant
                i <= keys@.len(),
                self.wf(),
                self@.targets == start@.targets,
                self@.aliases == removed_keys(start@.aliases, texts(keys@), i as int),
                self.logs_since(&start),
            decreases keys@.len() - i,
        {
            let ghost now = *self;
            self.remove_alias(keys[i].as_str());
            proof {
                assert(texts(keys@)[i as int] == keys@[i as int]@);
                lemma_logs_step(
                    start,
                    now,
                    *self,
                    ChangeView::RemoveAlias(keys@[i as int]@),
                );
            }
            i += 1;
        }
    }
}

// ── Upserts ──────────────────────────────────────────────────────────────────

/// One upsert: an identity, the time to record and the ids for its aliases.
pub struct Upsert {
    /// The identity.
    pub identity: ResolvedIdentity,
    /// RFC 3339 time of the write.
    pub resolved_at: String,
    /// Ids for the aliases, used from the front.
    pub alias_ids: Vec<String>,
}

impl View for Upsert {
    type V = UpsertView;

    open spec fn view(&self) -> UpsertView {
        UpsertView {
            identity: self.identity@,
            resolved_at: self.resolved_at@,
            alias_ids: texts(self.alias_ids@),
        }
    }
}

/// `time::OffsetDateTime::now_utc`, formatted by `time` as RFC 3339: four, two and
/// two digits of the date, `T`, three times two digits of the time of day, a
/// fraction of one to nine digits where the second is not whole, and `Z` for UTC.
/// Which time it is depends on the clock.
#[verifier::external_body]
fn now_iso() -> (s: String)
    ensures
        is_utc_time(s@),
{
    time::OffsetDateTime::now_utc()
        .format(&time::format_description::well_known::Rfc3339)
        .expect("the present time has an RFC 3339 form")
}

impl Upsert {
    /// Whether there are ids for all the aliases that are stored.
    pub open spec fn wf(&self) -> bool {
        self.alias_ids@.len() >= stored_aliases(self.identity@).len()
    }

    /// An upsert of `identity` at the present time, with random alias ids.
    pub fn draw(identity: &ResolvedIdentity) -> (u: Self)
        ensures
            u.wf(),
            u@.drawn(),
            u@.identity == identity@,
    {
        let n: usize = aliases_to_store(identity).len();
        let u = Upsert {
            identity: identity.clone(),
            resolved_at: now_iso(),
            alias_ids: random_ids(n),
        };
        assert(stored_aliases(identity@).len() == n);
        u
    }
}

/// The aliases to store for an identity.
fn aliases_to_store(identity: &ResolvedIdentity) -> (out: Vec<ResolvedAlias>)
    ensures
        views(out@) == stored_aliases(identity@),
{
    let form = normalize(identity.primary_designation.as_str());
    let first = match find_designation(&identity.aliases, form.as_str()) {
        Some(a) => a,
        None => ResolvedAlias::new(
            identity.primary_designation.as_str(),
            AliasKind::Designation,
        ),
    };
    let mut all = copy_aliases(&identity.aliases);
    let ghost had = all@;
    all.insert(0, first);
    assert(views(all@) =~= seq![first@] + views(had));
    let ghost s = with_primary(identity@.aliases, identity@.primary_designation);
    assert(views(all@) == s);
    let mut out: Vec<ResolvedAlias> = Vec::new();
    let mut i: usize = 0;
    assert(s.take(0) =~= Seq::empty());
    assert(views(out@) =~= Seq::empty());
    while i < all.len()
        invariant
            s == views(all@),
            i <= all@.len(),
            views(out@) == distinct_forms(s.take(i as int)),
        decreases all@.len() - i,
    {
        let ghost done = out@;
        proof {
            assert(s.take(i + 1).drop_last() =~= s.take(i as int));
            assert(s.take(i + 1).last() == all@[i as int]@);
        }
        if !normalizes(&out, all[i].normalized.as_str()) {
            let item = all[i].clone();
            out.push(item);
            assert(views(out@) =~= views(done).push(item@));
        }
        i += 1;
    }
    assert(s.take(all@.len() as int) =~= s);
    out
}

/// What an upsert needs to know of the row that it finds.
struct Existing {
    id: String,
    source: TargetSource,
    simbad_oid: Option<i64>,
}

/// Whether `e` tells of the row `row`.
spec fn tells_of(e: Option<Existing>, row: Option<TargetRowView>) -> bool {
    match (e, row) {
        (Some(e), Some(r)) => e.id@ == r.id && e.source == r.source && e.simbad_oid
            == r.simbad_oid,
        (None, None) => true,
        _ => false,
    }
}

fn decide_from(
    existing: &Option<Existing>,
    identity: &ResolvedIdentity,
    derived: &str,
    Ghost(targets): Ghost<Seq<TargetRowView>>,
) -> (r: (String, UpsertOutcome))
    requires
        tells_of(*existing, existing_row(targets, identity@, derived@)),
    ensures
        (r.0@, r.1) == decide(targets, identity@, derived@),
{
    match existing {
        Some(e) => if identity.source.may_overwrite(e.source) {
            (e.id.clone(), UpsertOutcome::Updated)
        } else {
            (e.id.clone(), UpsertOutcome::SkippedUserOverride)
        },
        None => (derived.to_owned(), UpsertOutcome::Inserted),
    }
}

impl CacheTables {
    /// The place of the first row with the SIMBAD object id `oid`.
    pub(crate) fn row_with_oid(&self, oid: i64) -> (r: Option<usize>)
        ensures
            match r {
                Some(i) => i < self@.targets.len() && first_with_oid(self@.targets, oid) == Some(
                    self@.targets[i as int],
                ),
                None => first_with_oid(self@.targets, oid) is None,
            },
    {
        let ghost s = self@.targets;
        let mut i: usize = 0;
        assert(s.take(0) =~= Seq::empty());
        while i < self.targets.len()
            invariant
                s == self.targets@,
                i <= s.len(),
                first_with_oid(s.take(i as int), oid) is None,
            decreases s.len() - i,
        {
            let row = self.targets.row(i);
            proof {
                assert(s.take(i + 1).drop_last() =~= s.take(i as int));
                assert(s.take(i + 1).last() == s[i as int]);
            }
            if row.simbad_oid.is_some() && row.simbad_oid.unwrap() == oid {
                proof {
                    lemma_first_stays(s, oid, i + 1);
                }
                return Some(i);
            }
            i += 1;
        }
        assert(s.take(s.len() as int) =~= s);
        None
    }

    /// The row that an identity would be stored over, by walking the table.
    fn existing_by_scan(&self, identity: &ResolvedIdentity, derived: &str) -> (r: Option<Existing>)
        requires
            self.wf(),
        ensures
            tells_of(r, existing_row(self@.targets, identity@, derived@)),
    {
        if let Some(oid) = identity.simbad_oid {
            if let Some(i) = self.row_with_oid(oid) {
                let row = self.targets.row(i);
                return Some(
                    Existing {
                        id: row.id.clone(),
                        source: row.source,
                        simbad_oid: row.simbad_oid,
                    },
                );
            }
        }
        self.existing_by_id(derived)
    }

    fn existing_by_id(&self, derived: &str) -> (r: Option<Existing>)
        requires
            self.wf(),
        ensures
            tells_of(r, lookup::<TargetRow>(self@.targets, derived@)),
    {
        match self.targets.get(derived) {
            Some(row) => Some(
                Existing { id: row.id.clone(), source: row.source, simbad_oid: row.simbad_oid },
            ),
            None => None,
        }
    }

    /// Replace the aliases of `target` by those of an identity: drop the rows
    /// named by `stale`, and put one row for each distinct normalized form.
    fn rewrite_aliases(
        &mut self,
        target: &str,
        identity: &ResolvedIdentity,
        ids: &Vec<String>,
        stale: &Vec<String>,
    )
        requires
            old(self).wf(),
            ids@.len() >= stored_aliases(identity@).len(),
            names_owned(texts(stale@), old(self)@.aliases, target@),
        ensures
            final(self).wf(),
            final(self)@.targets == old(self)@.targets,
            final(self)@.aliases == rewritten(
                old(self)@.aliases,
                target@,
                identity@,
                texts(ids@),
            ),
            final(self).logs_since(old(self)),
    {
        let ghost start = *self;
        self.retire(stale);
        let ghost base = self@.aliases;
        proof {
            lemma_retire(start@.aliases, texts(stale@), target@);
        }
        let list = aliases_to_store(identity);
        let ghost aliases = stored_aliases(identity@);
        let ghost keys = texts(ids@);
        let mut i: usize = 0;
        while i < list.len()
            invariant
                i <= list@.len(),
                list@.len() <= ids@.len(),
                views(list@) == aliases,
                keys == texts(ids@),
                self.wf(),
                self@.targets == start@.targets,
                self@.aliases == put_aliases(base, target@, aliases, keys, i as int),
                self.logs_since(&start),
            decreases list@.len() - i,
        {
            let ghost now = *self;
            let row = AliasRow {
                alias_id: ids[i].clone(),
                target_id: target.to_owned(),
                alias: list[i].clone(),
            };
            proof {
                assert(keys[i as int] == ids@[i as int]@);
                assert(aliases[i as int] == list@[i as int]@);
            }
            let ghost v = row@;
            self.put_alias(row);
            proof {
                lemma_logs_step(start, now, *self, ChangeView::PutAlias(v));
            }
            i += 1;
        }
    }

    /// Store an identity under `key`, with its aliases.
    fn write(&mut self, key: &str, u: &Upsert, stale: &Vec<String>)
        requires
            old(self).wf(),
            u.wf(),
            names_owned(texts(stale@), old(self)@.aliases, key@),
        ensures
            final(self).wf(),
            final(self)@ == old(self)@.stored(key@, u@),
            final(self).logs_since(old(self)),
    {
        let ghost start = *self;
        let row = TargetRow::from_identity(key, &u.identity, u.resolved_at.as_str());
        let ghost v = row@;
        self.put_target(row);
        let ghost mid = *self;
        proof {
            lemma_logs_self(start);
            lemma_logs_step(start, start, mid, ChangeView::PutTarget(v));
        }
        self.rewrite_aliases(key, &u.identity, &u.alias_ids, stale);
        proof {
            lemma_logs_chain(start, mid, *self);
        }
    }

    /// Upsert an identity, with its aliases: over the row with its SIMBAD object
    /// id, else over the row under the id derived from its designation, else as
    /// a new row. A row from a source of higher precedence is left alone. Where
    /// the key of the row found is no UUID, nothing is written.
    pub fn upsert_with(&mut self, u: &Upsert, namespace: u128) -> (r: Result<
        (u128, UpsertOutcome),
        CacheError,
    >)
        requires
            old(self).wf(),
            u.wf(),
        ensures
            final(self).wf(),
            final(self).logs_since(old(self)),
            match r {
                Ok((id, outcome)) => {
                    &&& old(self)@.upsert_id(u@.identity, namespace) == Some(id)
                    &&& outcome == old(self)@.decision(u@.identity, namespace).1
                    &&& final(self)@ == old(self)@.upserted(u@, namespace)
                },
                Err(e) => {
                    &&& old(self)@.upsert_id(u@.identity, namespace) is None
                    &&& e matches CacheError::InvalidUuid(key, _) && key@ == old(self)@.decision(
                        u@.identity,
                        namespace,
                    ).0
                    &&& final(self)@ == old(self)@
                },
            },
    {
        let ghost start = *self;
        proof {
            lemma_logs_self(start);
        }
        let derived = id_text(
            target_id_from_designation(namespace, u.identity.primary_designation.as_str()),
        );
        let existing = self.existing_by_scan(&u.identity, derived.as_str());
        let (key, outcome) = decide_from(
            &existing,
            &u.identity,
            derived.as_str(),
            Ghost(self@.targets),
        );
        match parse_id(key.as_str()) {
            Err(e) => Err(CacheError::InvalidUuid(key, e)),
            Ok(id) => {
                if outcome != UpsertOutcome::SkippedUserOverride {
                    let stale = self.owned_keys(key.as_str());
                    self.write(key.as_str(), u, &stale);
                }
                Ok((id, outcome))
            },
        }
    }

    /// Upsert an identity at the present time, with random alias ids.
    pub fn upsert(&mut self, identity: &ResolvedIdentity, namespace: u128) -> (r: Result<
        (u128, UpsertOutcome),
        CacheError,
    >)
        requires
            old(self).wf(),
        ensures
            final(self).wf(),
            final(self).logs_since(old(self)),
            match r {
                Ok((id, outcome)) => {
                    &&& old(self)@.upsert_id(identity@, namespace) == Some(id)
                    &&& outcome == old(self)@.decision(identity@, namespace).1
                    &&& exists|u: UpsertView|
                        u.identity == identity@ && u.drawn() && final(self)@
                            == #[trigger] old(self)@.upserted(u, namespace)
                },
                Err(e) => {
                    &&& old(self)@.upsert_id(identity@, namespace) is None
                    &&& e matches CacheError::InvalidUuid(key, _) && key@ == old(self)@.decision(
                        identity@,
                        namespace,
                    ).0
                    &&& final(self)@ == old(self)@
                },
            },
    {
        let u = Upsert::draw(identity);
        self.upsert_with(&u, namespace)
    }

    /// Write an identity over the row of the target `id`, whatever the source of
    /// that row.
    pub fn overwrite_with(&mut self, id: u128, u: &Upsert)
        requires
            old(self).wf(),
            u.wf(),
        ensures
            final(self).wf(),
            final(self).logs_since(old(self)),
            final(self)@ == old(self)@.stored(hyphenated(id), u@),
    {
        let key = id_text(id);
        let stale = self.owned_keys(key.as_str());
        self.write(key.as_str(), u, &stale);
    }

    /// Write an identity over the row of the target `id`, whatever the source of
    /// that row, at the present time and with random alias ids.
    pub fn overwrite(&mut self, id: u128, identity: &ResolvedIdentity)
        requires
            old(self).wf(),
        ensures
            final(self).wf(),
            final(self).logs_since(old(self)),
            exists|u: UpsertView|
                u.identity == identity@ && u.drawn() && final(self)@
                    == #[trigger] old(self)@.stored(hyphenated(id), u),
    {
        let u = Upsert::draw(identity);
        self.overwrite_with(id, &u);
    }
}

/// What a prefix of the table finds first, the whole table finds.
proof fn lemma_first_stays(s: Seq<TargetRowView>, oid: i64, n: int)
    requires
        0 <= n <= s.len(),
        first_with_oid(s.take(n), oid) is Some,
    ensures
        first_with_oid(s, oid) == first_with_oid(s.take(n), oid),
    decreases s.len() - n,
{
    if n < s.len() {
        assert(s.take(n + 1).drop_last() =~= s.take(n));
        lemma_first_stays(s, oid, n + 1);
    } else {
        assert(s.take(n) =~= s);
    }
}

// ── Batches ──────────────────────────────────────────────────────────────────

/// Whether no SIMBAD object id stands in two rows.
pub open spec fn unique_oids(targets: Seq<TargetRowView>) -> bool {
    forall|x: TargetRowView, y: TargetRowView| #[trigger]
        targets.contains(x) && #[trigger] targets.contains(y) && x.simbad_oid is Some
            && x.simbad_oid == y.simbad_oid ==> x == y
}

/// What the first row with an object id is.
pub proof fn lemma_first_with_oid(targets: Seq<TargetRowView>, oid: i64)
    ensures
        match first_with_oid(targets, oid) {
            Some(row) => targets.contains(row) && row.simbad_oid == Some(oid),
            None => forall|x: TargetRowView| #[trigger]
                targets.contains(x) ==> x.simbad_oid != Some(oid),
        },
    decreases targets.len(),
{
    if targets.len() > 0 {
        let front = targets.drop_last();
        let last = targets.last();
        lemma_first_with_oid(front, oid);
        assert(targets =~= front.push(last));
        assert forall|x: TargetRowView| #[trigger]
            targets.contains(x) <==> (front.contains(x) || x == last) by {
            vstd::seq_lib::lemma_seq_contains_after_push(front, last, x);
        }
    }
}

/// Storing an identity over the row that it belongs to leaves every object id in
/// at most one row, and says where each object id is found afterwards.
pub proof fn lemma_put_keeps_oids(
    targets: Seq<TargetRowView>,
    identity: IdentityView,
    derived: Seq<char>,
    resolved_at: Seq<char>,
    oid: i64,
)
    requires
        ascending::<TargetRow>(targets),
        unique_oids(targets),
    ensures
        ({
            let key = decide(targets, identity, derived).0;
            let row = TargetRowView::of(key, identity, resolved_at);
            let after = put::<TargetRow>(targets, row);
            &&& unique_oids(after)
            &&& first_with_oid(after, oid) == if identity.simbad_oid == Some(oid) {
                Some(row)
            } else {
                match existing_row(targets, identity, derived) {
                    Some(prior) => if prior.simbad_oid == Some(oid) {
                        None
                    } else {
                        first_with_oid(targets, oid)
                    },
                    None => first_with_oid(targets, oid),
                }
            }
        }),
{
    let key = decide(targets, identity, derived).0;
    let row = TargetRowView::of(key, identity, resolved_at);
    let after = put::<TargetRow>(targets, row);
    lemma_put_rows::<TargetRow>(targets, row);
    assert(after.contains(row));
    assert forall|x: TargetRowView| #[trigger] after.contains(x) implies x == row || (
    targets.contains(x) && x.id != key) by {}
    lemma_lookup_found::<TargetRow>(targets, derived);
    match identity.simbad_oid {
        Some(o) => {
            lemma_first_with_oid(targets, o);
            assert forall|x: TargetRowView| #[trigger]
                after.contains(x) && x.simbad_oid == Some(o) implies x == row by {
                if x != row {
                    assert(targets.contains(x));
                }
            }
        },
        None => {},
    }
    assert(unique_oids(after));
    lemma_first_with_oid(targets, oid);
    lemma_first_with_oid(after, oid);
    match existing_row(targets, identity, derived) {
        Some(prior) => {
            assert(targets.contains(prior));
            assert(prior.id == key);
        },
        None => {
            if has_key::<TargetRow>(targets, key) {
                lemma_lookup_found::<TargetRow>(targets, key);
            }
        },
    }
    if identity.simbad_oid != Some(oid) {
        match first_with_oid(targets, oid) {
            Some(x) => {
                assert(targets.contains(x));
                let i = choose|i: int| 0 <= i < targets.len() && targets[i] == x;
                lemma_lookup_at::<TargetRow>(targets, i);
                if x.id != key {
                    assert(after.contains(x));
                } else {
                    match existing_row(targets, identity, derived) {
                        Some(prior) => {
                            let j = choose|j: int| 0 <= j < targets.len() && targets[j] == prior;
                            lemma_lookup_at::<TargetRow>(targets, j);
                        },
                        None => {},
                    }
                }
            },
            None => {},
        }
    }
}

/// An entry of the index from object ids to rows.
struct OidEntry {
    id: String,
    source: TargetSource,
}

/// What an index from object ids to rows holds: for each object id the key and the
/// source of a row.
spec fn oid_map(index: Map<i64, OidEntry>) -> Map<i64, (Seq<char>, TargetSource)> {
    index.map_values(|e: OidEntry| (e.id@, e.source))
}

/// Whether `index` maps every stored object id to the key and the source of the one
/// row that has it, and maps nothing else.
pub open spec fn indexes_oids(
    index: Map<i64, (Seq<char>, TargetSource)>,
    targets: Seq<TargetRowView>,
) -> bool {
    &&& unique_oids(targets)
    &&& forall|oid: i64|
        #![trigger index.contains_key(oid)]
        #![trigger first_with_oid(targets, oid)]
        match first_with_oid(targets, oid) {
            Some(row) => index.contains_key(oid) && index[oid] == (row.id, row.source),
            None => !index.contains_key(oid),
        }
}

/// The index after an identity was written under `key`, over the row `prior`: the
/// object id that the row no longer has is gone, and the one that it has now leads
/// to it.
pub open spec fn reindexed(
    index: Map<i64, (Seq<char>, TargetSource)>,
    prior: Option<TargetRowView>,
    key: Seq<char>,
    identity: IdentityView,
) -> Map<i64, (Seq<char>, TargetSource)> {
    let cleared = match prior {
        Some(row) => match row.simbad_oid {
            Some(oid) => if identity.simbad_oid == Some(oid) {
                index
            } else {
                index.remove(oid)
            },
            None => index,
        },
        None => index,
    };
    match identity.simbad_oid {
        Some(oid) => cleared.insert(oid, (key, identity.source)),
        None => cleared,
    }
}

/// Bring the index up to date after `identity` was written under `key`.
fn reindex(
    index: &mut HashMap<i64, OidEntry>,
    existing: &Option<Existing>,
    key: &str,
    identity: &ResolvedIdentity,
    Ghost(prior): Ghost<Option<TargetRowView>>,
)
    requires
        tells_of(*existing, prior),
    ensures
        oid_map(final(index)@) == reindexed(oid_map(old(index)@), prior, key@, identity@),
{
    broadcast use group_hash_axioms;

    if let Some(e) = existing {
        if let Some(gone) = e.simbad_oid {
            if identity.simbad_oid.is_none() || identity.simbad_oid.unwrap() != gone {
                let ghost had = index@;
                index.remove(&gone);
                assert(oid_map(index@) =~= oid_map(had).remove(gone));
            }
        }
    }
    if let Some(oid) = identity.simbad_oid {
        let ghost had = index@;
        let entry = OidEntry { id: key.to_owned(), source: identity.source };
        index.insert(oid, entry);
        assert(oid_map(index@) =~= oid_map(had).insert(oid, (key@, identity@.source)));
    }
}

/// Writing an identity over the row that it belongs to keeps the index: it again
/// maps exactly the stored object ids to their rows.
pub proof fn lemma_reindexed(
    index: Map<i64, (Seq<char>, TargetSource)>,
    targets: Seq<TargetRowView>,
    identity: IdentityView,
    derived: Seq<char>,
    resolved_at: Seq<char>,
)
    requires
        ascending::<TargetRow>(targets),
        indexes_oids(index, targets),
    ensures
        ({
            let key = decide(targets, identity, derived).0;
            let prior = existing_row(targets, identity, derived);
            indexes_oids(
                reindexed(index, prior, key, identity),
                put::<TargetRow>(targets, TargetRowView::of(key, identity, resolved_at)),
            )
        }),
{
    let key = decide(targets, identity, derived).0;
    let prior = existing_row(targets, identity, derived);
    let next = reindexed(index, prior, key, identity);
    let after = put::<TargetRow>(targets, TargetRowView::of(key, identity, resolved_at));
    lemma_put_keeps_oids(targets, identity, derived, resolved_at, 0);
    assert forall|oid: i64|
        #![trigger next.contains_key(oid)]
        #![trigger first_with_oid(after, oid)]
        match first_with_oid(after, oid) {
            Some(row) => next.contains_key(oid) && next[oid] == (row.id, row.source),
            None => !next.contains_key(oid),
        } by {
        lemma_put_keeps_oids(targets, identity, derived, resolved_at, oid);
        lemma_first_with_oid(targets, oid);
    }
}

/// The view of an [`OwnerRow`].
#[verifier::ext_equal]
pub struct OwnerView {
    pub target_id: Seq<char>,
    pub alias_ids: Seq<Seq<char>>,
}

/// An entry of the index from targets to the keys of their aliases.
pub struct OwnerRow {
    target_id: String,
    alias_ids: Vec<String>,
}

impl View for OwnerRow {
    type V = OwnerView;

    closed spec fn view(&self) -> OwnerView {
        OwnerView { target_id: self.target_id@, alias_ids: texts(self.alias_ids@) }
    }
}

impl Row for OwnerRow {
    open spec fn key_of(v: OwnerView) -> Seq<char> {
        v.target_id
    }

    fn key(&self) -> (k: &str) {
        self.target_id.as_str()
    }

    fn copy(&self) -> (r: Self) {
        OwnerRow { target_id: self.target_id.clone(), alias_ids: copy_texts(&self.alias_ids) }
    }
}

fn copy_texts(v: &Vec<String>) -> (out: Vec<String>)
    ensures
        texts(out@) == texts(v@),
{
    first_texts(v, v.len())
}

/// The first `n` strings of `v`.
fn first_texts(v: &Vec<String>, n: usize) -> (out: Vec<String>)
    requires
        n <= v@.len(),
    ensures
        texts(out@) == texts(v@).take(n as int),
{
    let mut out: Vec<String> = Vec::new();
    let mut i: usize = 0;
    assert(texts(out@) =~= texts(v@).take(0));
    while i < n
        invariant
            i <= n <= v@.len(),
            texts(out@) == texts(v@).take(i as int),
        decreases n - i,
    {
        let ghost done = out@;
        let item = v[i].clone();
        out.push(item);
        proof {
            assert(texts(out@) =~= texts(done).push(item@));
            assert(texts(v@).take(i + 1) =~= texts(v@).take(i as int).push(item@));
        }
        i += 1;
    }
    out
}

/// Whether `index` lists `k` among the keys of `target`.
spec fn owns(index: Seq<OwnerView>, target: Seq<char>, k: Seq<char>) -> bool {
    lookup::<OwnerRow>(index, target) matches Some(o) && o.alias_ids.contains(k)
}

/// Whether the alias row under `k` belongs to `target`.
spec fn owned(aliases: Seq<AliasRowView>, target: Seq<char>, k: Seq<char>) -> bool {
    lookup::<AliasRow>(aliases, k) matches Some(x) && x.target_id == target
}

/// Whether `index` lists, for every target, the keys of its aliases.
spec fn indexes_owners(index: Seq<OwnerView>, aliases: Seq<AliasRowView>) -> bool {
    &&& ascending::<OwnerRow>(index)
    &&& forall|target: Seq<char>, k: Seq<char>|
        #![trigger owns(index, target, k)]
        #![trigger owned(aliases, target, k)]
        owns(index, target, k) == owned(aliases, target, k)
}

/// Who owns a key after the aliases of `target` were replaced.
proof fn lemma_owned_after(
    s: Seq<AliasRowView>,
    target: Seq<char>,
    aliases: Seq<AliasView>,
    ids: Seq<Seq<char>>,
    n: int,
    other: Seq<char>,
    k: Seq<char>,
)
    requires
        ascending::<AliasRow>(s),
        0 <= n <= ids.len(),
        n <= aliases.len(),
    ensures
        owned(put_aliases(not_owned_by(s, target), target, aliases, ids, n), other, k)
            == if ids.take(n).contains(k) {
            other == target
        } else {
            other != target && owned(s, other, k)
        },
{
    let rest = not_owned_by(s, target);
    let after = put_aliases(rest, target, aliases, ids, n);
    lemma_not_owned(s, target);
    lemma_put_aliases(rest, target, aliases, ids, n);
    lemma_lookup_found::<AliasRow>(after, k);
    lemma_lookup_found::<AliasRow>(s, k);
    if ids.take(n).contains(k) {
        assert(has_key::<AliasRow>(after, k));
        let x = lookup::<AliasRow>(after, k)->Some_0;
        assert(after.contains(x));
        assert(x.target_id == target);
    } else {
        match lookup::<AliasRow>(after, k) {
            Some(x) => {
                assert(after.contains(x));
                assert(rest.contains(x));
                assert(s.contains(x));
                lemma_lookup_iff::<AliasRow>(s, x);
            },
            None => {},
        }
        match lookup::<AliasRow>(s, k) {
            Some(x) => {
                if x.target_id != target {
                    assert(s.contains(x));
                    assert(rest.contains(x));
                    assert(after.contains(x));
                    lemma_lookup_iff::<AliasRow>(after, x);
                }
            },
            None => {},
        }
    }
}

/// The strings of `v` but `k`.
fn without_text(v: &Vec<String>, k: &str) -> (out: Vec<String>)
    ensures
        forall|t: Seq<char>| #[trigger]
            texts(out@).contains(t) <==> (texts(v@).contains(t) && t != k@),
{
    let mut out: Vec<String> = Vec::new();
    let ghost all = texts(v@);
    let mut i: usize = 0;
    while i < v.len()
        invariant
            all == texts(v@),
            i <= v@.len(),
            forall|t: Seq<char>| #[trigger]
                texts(out@).contains(t) <==> (all.take(i as int).contains(t) && t != k@),
        decreases v@.len() - i,
    {
        let ghost done = texts(out@);
        let ghost item = all[i as int];
        proof {
            assert(all.take(i + 1) =~= all.take(i as int).push(item));
            assert forall|t: Seq<char>| #[trigger]
                all.take(i + 1).contains(t) <==> (all.take(i as int).contains(t) || t == item) by {
                vstd::seq_lib::lemma_seq_contains_after_push(all.take(i as int), item, t);
            }
        }
        if !same_text(v[i].as_str(), k) {
            let text = v[i].clone();
            out.push(text);
            proof {
                assert(texts(out@) =~= done.push(item));
                assert forall|t: Seq<char>| #[trigger]
                    texts(out@).contains(t) <==> (done.contains(t) || t == item) by {
                    vstd::seq_lib::lemma_seq_contains_after_push(done, item, t);
                }
            }
        }
        i += 1;
    }
    assert(all.take(v@.len() as int) =~= all);
    out
}

impl CacheTables {
    /// The row that an identity would be stored over, by the index.
    fn existing_by_index(
        &self,
        index: &HashMap<i64, OidEntry>,
        identity: &ResolvedIdentity,
        derived: &str,
    ) -> (r: Option<Existing>)
        requires
            self.wf(),
            indexes_oids(oid_map(index@), self@.targets),
        ensures
            tells_of(r, existing_row(self@.targets, identity@, derived@)),
    {
        broadcast use group_hash_axioms;

        if let Some(oid) = identity.simbad_oid {
            proof {
                lemma_first_with_oid(self@.targets, oid);
            }
            let entry = index.get(&oid);
            assert(oid_map(index@).contains_key(oid) <==> first_with_oid(self@.targets, oid) is Some);
            if let Some(e) = entry {
                return Some(
                    Existing { id: e.id.clone(), source: e.source, simbad_oid: Some(oid) },
                );
            }
        }
        self.existing_by_id(derived)
    }

    /// One walk over the targets, indexing every row that has an object id; the
    /// second part says whether no object id came twice.
    fn build_oid_index(&self) -> (r: (HashMap<i64, OidEntry>, bool))
        requires
            self.wf(),
        ensures
            r.1 ==> indexes_oids(oid_map(r.0@), self@.targets),
            !r.1 ==> !unique_oids(self@.targets),
    {
        broadcast use group_hash_axioms;

        let mut index: HashMap<i64, OidEntry> = HashMap::new();
        let ghost s = self@.targets;
        let mut i: usize = 0;
        assert(s.take(0) =~= Seq::empty());
        while i < self.targets.len()
            invariant
                s == self.targets@,
                ascending::<TargetRow>(s),
                i <= s.len(),
                indexes_oids(oid_map(index@), s.take(i as int)),
            decreases s.len() - i,
        {
            broadcast use group_hash_axioms;

            let row = self.targets.row(i);
            let ghost front = s.take(i as int);
            let ghost next = s.take(i + 1);
            let ghost known = oid_map(index@);
            proof {
                assert(next.drop_last() =~= front);
                assert(next =~= front.push(s[i as int]));
                assert forall|x: TargetRowView| #[trigger]
                    next.contains(x) <==> (front.contains(x) || x == s[i as int]) by {
                    vstd::seq_lib::lemma_seq_contains_after_push(front, s[i as int], x);
                }
            }
            if let Some(oid) = row.simbad_oid {
                proof {
                    lemma_first_with_oid(front, oid);
                }
                if index.contains_key(&oid) {
                    proof {
                        let x = first_with_oid(front, oid)->Some_0;
                        let j = choose|j: int| 0 <= j < front.len() && front[j] == x;
                        assert(s[j] == x);
                        assert(s.contains(x));
                        assert(s.contains(s[i as int]));
                        if x == s[i as int] {
                            lemma_key_unique::<TargetRow>(s, i as int, j);
                        }
                    }
                    return (index, false);
                }
                let ghost had = index@;
                let entry = OidEntry { id: row.id.clone(), source: row.source };
                index.insert(oid, entry);
                assert(oid_map(index@) =~= oid_map(had).insert(
                    oid,
                    (s[i as int].id, s[i as int].source),
                ));
            }
            assert(unique_oids(next));
            proof {
                let map = oid_map(index@);
                assert forall|oid: i64|
                    #![trigger map.contains_key(oid)]
                    #![trigger first_with_oid(next, oid)]
                    match first_with_oid(next, oid) {
                        Some(x) => map.contains_key(oid) && map[oid] == (x.id, x.source),
                        None => !map.contains_key(oid),
                    } by {
                    assert(known.contains_key(oid) <==> first_with_oid(front, oid) is Some);
                }
            }
            i += 1;
        }
        assert(s.take(s.len() as int) =~= s);
        (index, true)
    }

    /// One walk over the aliases, indexing the keys of every target.
    fn build_alias_index(&self) -> (index: Table<OwnerRow>)
        requires
            self.wf(),
        ensures
            index.wf(),
            indexes_owners(index@, self@.aliases),
    {
        let mut index: Table<OwnerRow> = Table::new();
        let ghost s = self@.aliases;
        let mut i: usize = 0;
        proof {
            assert forall|t: Seq<char>, k: Seq<char>| !#[trigger] owns(index@, t, k) by {
                if has_key::<OwnerRow>(index@, t) {
                    let j = choose|j: int| keyed_at::<OwnerRow>(index@, t, j);
                    assert(keyed_at::<OwnerRow>(index@, t, j));
                }
            }
        }
        while i < self.aliases.len()
            invariant
                s == self.aliases@,
                i <= s.len(),
                index.wf(),
                forall|t: Seq<char>, k: Seq<char>| #[trigger]
                    owns(index@, t, k) <==> exists|j: int|
                        0 <= j < i && (#[trigger] s[j]).alias_id == k && s[j].target_id == t,
            decreases s.len() - i,
        {
            let row = self.aliases.row(i);
            let ghost before_index = index@;
            let mut keys: Vec<String> = match index.get(row.target_id.as_str()) {
                Some(o) => copy_texts(&o.alias_ids),
                None => Vec::new(),
            };
            let ghost old_keys = texts(keys@);
            proof {
                assert forall|k: Seq<char>| #[trigger]
                    old_keys.contains(k) <==> owns(before_index, s[i as int].target_id, k) by {}
            }
            let key = row.alias_id.clone();
            keys.push(key);
            let entry = OwnerRow { target_id: row.target_id.clone(), alias_ids: keys };
            let ghost v = entry@;
            proof {
                assert(v.alias_ids =~= old_keys.push(s[i as int].alias_id));
            }
            index.put(entry);
            proof {
                assert forall|t: Seq<char>, k: Seq<char>| #[trigger]
                    owns(index@, t, k) <==> exists|j: int|
                        0 <= j < i + 1 && (#[trigger] s[j]).alias_id == k && s[j].target_id
                            == t by {
                    lemma_put_lookup::<OwnerRow>(before_index, v, t);
                    vstd::seq_lib::lemma_seq_contains_after_push(
                        old_keys,
                        s[i as int].alias_id,
                        k,
                    );
                    assert(owns(before_index, t, k) <==> exists|j: int|
                        0 <= j < i && (#[trigger] s[j]).alias_id == k && s[j].target_id == t);
                    if owns(before_index, t, k) {
                        let j = choose|j: int|
                            0 <= j < i && (#[trigger] s[j]).alias_id == k && s[j].target_id == t;
                        assert(s[j].alias_id == k && 0 <= j < i + 1);
                    }
                    if s[i as int].alias_id == k && s[i as int].target_id == t {
                        assert(owns(index@, t, k));
                    }
                }
            }
            i += 1;
        }
        proof {
            assert forall|t: Seq<char>, k: Seq<char>|
                #![trigger owns(index@, t, k)]
                #![trigger owned(s, t, k)]
                owns(index@, t, k) == owned(s, t, k) by {
                if owns(index@, t, k) {
                    let j = choose|j: int|
                        0 <= j < s.len() && (#[trigger] s[j]).alias_id == k && s[j].target_id == t;
                    lemma_lookup_at::<AliasRow>(s, j);
                }
                if owned(s, t, k) {
                    lemma_lookup_found::<AliasRow>(s, k);
                    let x = lookup::<AliasRow>(s, k)->Some_0;
                    let j = choose|j: int| 0 <= j < s.len() && s[j] == x;
                    assert(s[j].alias_id == k && s[j].target_id == t);
                }
            }
        }
        index
    }
}

/// Whether `batch` upserts `identities`, one for one, with drawn alias ids.
pub open spec fn draws_of(batch: Seq<UpsertView>, identities: Seq<IdentityView>) -> bool {
    &&& batch.len() == identities.len()
    &&& forall|i: int|
        0 <= i < batch.len() ==> (#[trigger] batch[i]).drawn() && batch[i].identity
            == identities[i]
}

impl CacheTables {
    /// The keys that the index lists for `target`.
    fn indexed_keys(&self, index: &Table<OwnerRow>, target: &str) -> (keys: Vec<String>)
        requires
            self.wf(),
            indexes_owners(index@, self@.aliases),
        ensures
            names_owned(texts(keys@), self@.aliases, target@),
    {
        let keys = match index.get(target) {
            Some(o) => copy_texts(&o.alias_ids),
            None => Vec::new(),
        };
        proof {
            let s = self@.aliases;
            assert forall|x: AliasRowView| #[trigger] s.contains(x) implies (texts(keys@).contains(
                x.alias_id,
            ) <==> x.target_id == target@) by {
                lemma_lookup_iff::<AliasRow>(s, x);
                assert(owns(index@, target@, x.alias_id) == owned(s, target@, x.alias_id));
            }
        }
        keys
    }

    /// Take the first `n` of `ids` out of the index: rows under those keys are
    /// about to be replaced.
    fn unlist(&self, index: &mut Table<OwnerRow>, ids: &Vec<String>, n: usize)
        requires
            self.wf(),
            indexes_owners(old(index)@, self@.aliases),
            n <= ids@.len(),
        ensures
            final(index).wf(),
            forall|t: Seq<char>, k: Seq<char>| #[trigger]
                owns(final(index)@, t, k) <==> (owned(self@.aliases, t, k) && !texts(ids@).take(
                    n as int,
                ).contains(k)),
    {
        let ghost keys = texts(ids@);
        let ghost s = self@.aliases;
        let mut i: usize = 0;
        assert(keys.take(0) =~= Seq::empty());
        while i < n
            invariant
                i <= n <= ids@.len(),
                keys == texts(ids@),
                s == self.aliases@,
                ascending::<AliasRow>(s),
                index.wf(),
                forall|t: Seq<char>, k: Seq<char>| #[trigger]
                    owns(index@, t, k) <==> (owned(s, t, k) && !keys.take(i as int).contains(k)),
            decreases n - i,
        {
            let ghost start = index@;
            let ghost key = keys[i as int];
            proof {
                assert(keys.take(i + 1) =~= keys.take(i as int).push(key));
                assert forall|k: Seq<char>| #[trigger]
                    keys.take(i + 1).contains(k) <==> (keys.take(i as int).contains(k) || k
                        == key) by {
                    vstd::seq_lib::lemma_seq_contains_after_push(keys.take(i as int), key, k);
                }
            }
            match self.aliases.get(ids[i].as_str()) {
                Some(row) => {
                    let owner = row.target_id.as_str();
                    match index.get(owner) {
                        Some(o) => {
                            let entry = OwnerRow {
                                target_id: o.target_id.clone(),
                                alias_ids: without_text(&o.alias_ids, ids[i].as_str()),
                            };
                            let ghost v = entry@;
                            proof {
                                lemma_lookup_found::<OwnerRow>(start, owner@);
                                assert forall|k: Seq<char>| #[trigger]
                                    v.alias_ids.contains(k) <==> (owns(start, owner@, k) && k
                                        != key) by {}
                            }
                            index.put(entry);
                            proof {
                                assert forall|t: Seq<char>, k: Seq<char>| #[trigger]
                                    owns(index@, t, k) <==> (owned(s, t, k) && !keys.take(
                                        i + 1,
                                    ).contains(k)) by {
                                    lemma_put_lookup::<OwnerRow>(start, v, t);
                                    assert(owns(start, t, k) <==> (owned(s, t, k) && !keys.take(
                                        i as int,
                                    ).contains(k)));
                                    if t == owner@ {
                                        assert(v.alias_ids.contains(k) <==> (owns(start, t, k) && k
                                            != key));
                                    }
                                }
                            }
                        },
                        None => {
                            proof {
                                assert forall|t: Seq<char>, k: Seq<char>| #[trigger]
                                    owns(index@, t, k) <==> (owned(s, t, k) && !keys.take(
                                        i + 1,
                                    ).contains(k)) by {
                                    assert(owns(start, t, k) <==> (owned(s, t, k) && !keys.take(
                                        i as int,
                                    ).contains(k)));
                                }
                            }
                        },
                    }
                },
                None => {
                    proof {
                        assert forall|t: Seq<char>, k: Seq<char>| #[trigger]
                            owns(index@, t, k) <==> (owned(s, t, k) && !keys.take(
                                i + 1,
                            ).contains(k)) by {
                            assert(owns(start, t, k) <==> (owned(s, t, k) && !keys.take(
                                i as int,
                            ).contains(k)));
                        }
                    }
                },
            }
            i += 1;
        }
    }

    /// Store an identity under `key` with the help of the alias index, which is
    /// kept up to date.
    fn write_indexed(&mut self, key: &str, u: &Upsert, index: &mut Table<OwnerRow>)
        requires
            old(self).wf(),
            u.wf(),
            indexes_owners(old(index)@, old(self)@.aliases),
        ensures
            final(self).wf(),
            final(self)@.targets == put::<TargetRow>(
                old(self)@.targets,
                TargetRowView::of(key@, u@.identity, u@.resolved_at),
            ),
            final(self)@.aliases == rewritten(
                old(self)@.aliases,
                key@,
                u@.identity,
                u@.alias_ids,
            ),
            final(self).logs_since(old(self)),
            indexes_owners(final(index)@, final(self)@.aliases),
    {
        let ghost s = self@.aliases;
        let ghost ids = texts(u.alias_ids@);
        let ghost aliases = stored_aliases(u.identity@);
        let stale = self.indexed_keys(index, key);
        let n: usize = aliases_to_store(&u.identity).len();
        proof {
            assert(n == aliases.len());
        }
        self.unlist(index, &u.alias_ids, n);
        self.write(key, u, &stale);
        let ghost mid = index@;
        let entry = OwnerRow {
            target_id: key.to_owned(),
            alias_ids: first_texts(&u.alias_ids, n),
        };
        let ghost v = entry@;
        index.put(entry);
        proof {
            let after = self@.aliases;
            lemma_put_rows::<OwnerRow>(mid, v);
            assert forall|t: Seq<char>, k: Seq<char>|
                #![trigger owns(index@, t, k)]
                #![trigger owned(after, t, k)]
                owns(index@, t, k) == owned(after, t, k) by {
                lemma_put_lookup::<OwnerRow>(mid, v, t);
                lemma_owned_after(s, key@, aliases, ids, n as int, t, k);
                assert(owns(mid, t, k) <==> (owned(s, t, k) && !ids.take(n as int).contains(k)));
            }
        }
    }

    /// Upsert every identity of a batch, in order, at the present time and with
    /// random alias ids.
    pub fn upsert_batch(
        &mut self,
        identities: &Vec<ResolvedIdentity>,
        namespace: u128,
    ) -> (r: Result<Vec<(u128, UpsertOutcome)>, CacheError>)
        requires
            old(self).wf(),
        ensures
            final(self).wf(),
            final(self).logs_since(old(self)),
            exists|batch: Seq<UpsertView>| #[trigger]
                draws_of(batch, views(identities@)) && match r {
                    Ok(results) => upserts(old(self)@, batch, namespace, batch.len() as int)
                        == Ok::<_, Seq<char>>((final(self)@, results@)),
                    Err(e) => {
                        &&& e matches CacheError::InvalidUuid(key, _) && upserts(
                            old(self)@,
                            batch,
                            namespace,
                            batch.len() as int,
                        ) == Err::<(CacheView, Seq<(u128, UpsertOutcome)>), _>(key@)
                        &&& final(self)@ == old(self)@
                    },
                },
    {
        let mut batch: Vec<Upsert> = Vec::new();
        let mut i: usize = 0;
        while i < identities.len()
            invariant
                i <= identities@.len(),
                batch@.len() == i,
                forall|j: int| 0 <= j < i ==> (#[trigger] batch@[j]).wf(),
                forall|j: int|
                    0 <= j < i ==> (#[trigger] batch@[j])@.drawn() && batch@[j]@.identity
                        == identities@[j]@,
            decreases identities@.len() - i,
        {
            batch.push(Upsert::draw(&identities[i]));
            i += 1;
        }
        proof {
            let b = views(batch@);
            assert forall|j: int| 0 <= j < b.len() implies (#[trigger] b[j]).drawn()
                && b[j].identity == views(identities@)[j] by {
                assert(batch@[j]@ == b[j]);
            }
            assert(draws_of(b, views(identities@)));
        }
        self.upsert_batch_with(&batch, namespace)
    }

    /// Upsert every identity of a batch, in order; the result is the same as
    /// that of single upserts one after the other. Either all are done, or, at
    /// the first row whose key is no UUID, none.
    pub fn upsert_batch_with(&mut self, batch: &Vec<Upsert>, namespace: u128) -> (r: Result<
        Vec<(u128, UpsertOutcome)>,
        CacheError,
    >)
        requires
            old(self).wf(),
            forall|i: int| 0 <= i < batch@.len() ==> (#[trigger] batch@[i]).wf(),
        ensures
            final(self).wf(),
            final(self).logs_since(old(self)),
            match r {
                Ok(results) => upserts(
                    old(self)@,
                    views(batch@),
                    namespace,
                    batch@.len() as int,
                ) == Ok::<_, Seq<char>>((final(self)@, results@)),
                Err(e) => {
                    &&& e matches CacheError::InvalidUuid(key, _) && upserts(
                        old(self)@,
                        views(batch@),
                        namespace,
                        batch@.len() as int,
                    ) == Err::<(CacheView, Seq<(u128, UpsertOutcome)>), _>(key@)
                    &&& final(self)@ == old(self)@
                    &&& final(self).journal() == old(self).journal()
                },
            },
    {
        let ghost start = *self;
        let ghost items = views(batch@);
        let saved = self.copy();
        let (mut oids, unique) = self.build_oid_index();
        let mut owners = self.build_alias_index();
        let mut results: Vec<(u128, UpsertOutcome)> = Vec::new();
        let mut i: usize = 0;
        proof {
            lemma_logs_self(start);
            assert(results@ =~= Seq::empty());
        }
        while i < batch.len()
            invariant
                items == views(batch@),
                i <= batch@.len(),
                forall|j: int| 0 <= j < batch@.len() ==> (#[trigger] batch@[j]).wf(),
                self.wf(),
                self.logs_since(&start),
                saved.wf(),
                saved@ == start@,
                saved.journal() == start.journal(),
                *old(self) == start,
                upserts(start@, items, namespace, i as int) == Ok::<_, Seq<char>>(
                    (self@, results@),
                ),
                unique ==> indexes_oids(oid_map(oids@), self@.targets),
                indexes_owners(owners@, self@.aliases),
            decreases batch@.len() - i,
        {
            broadcast use group_hash_axioms;

            let u = &batch[i];
            assert(u@ == items[i as int]);
            let ghost now = *self;
            let ghost done = results@;
            let derived = id_text(
                target_id_from_designation(namespace, u.identity.primary_designation.as_str()),
            );
            let existing = if unique {
                self.existing_by_index(&oids, &u.identity, derived.as_str())
            } else {
                self.existing_by_scan(&u.identity, derived.as_str())
            };
            let (key, outcome) = decide_from(
                &existing,
                &u.identity,
                derived.as_str(),
                Ghost(self@.targets),
            );
            match parse_id(key.as_str()) {
                Err(e) => {
                    proof {
                        lemma_upserts_stop(start@, items, namespace, i + 1, batch@.len() as int);
                        lemma_logs_self(start);
                    }
                    *self = saved;
                    return Err(CacheError::InvalidUuid(key, e));
                },
                Ok(id) => {
                    if outcome != UpsertOutcome::SkippedUserOverride {
                        self.write_indexed(key.as_str(), u, &mut owners);
                        proof {
                            lemma_logs_chain(start, now, *self);
                        }
                        if unique {
                            proof {
                                lemma_reindexed(
                                    oid_map(oids@),
                                    now@.targets,
                                    u.identity@,
                                    derived@,
                                    u.resolved_at@,
                                );
                            }
                            reindex(
                                &mut oids,
                                &existing,
                                key.as_str(),
                                &u.identity,
                                Ghost(existing_row(now@.targets, u.identity@, derived@)),
                            );
                        }
                    }
                    results.push((id, outcome));
                    assert(results@ =~= done.push((id, outcome)));
                },
            }
            i += 1;
        }
        Ok(results)
    }
}

/// Once single upserts have stopped, they stay stopped.
proof fn lemma_upserts_stop(
    start: CacheView,
    batch: Seq<UpsertView>,
    namespace: u128,
    n: int,
    m: int,
)
    requires
        n <= m,
        upserts(start, batch, namespace, n) is Err,
    ensures
        upserts(start, batch, namespace, m) == upserts(start, batch, namespace, n),
    decreases m - n,
{
    if n < m {
        lemma_upserts_stop(start, batch, namespace, n, m - 1);
    }
}

} // verus!
