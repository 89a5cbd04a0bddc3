//! What a batch of upserts has in common with the same upserts one by one.
//!
//! An upsert records the present time and draws random ids for its alias rows, so
//! that two runs never leave the very same tables. What holds is that they leave
//! the same ones but for those times and ids.

use vstd::multiset::Multiset;
use vstd::prelude::*;

use crate::cache::state::{decide, existing_row, first_with_oid, not_owned_by, put_aliases, stored_aliases, upserts, AliasRow, AliasRowView, CacheView, TargetRow, TargetRowView, UpsertView};
use crate::cache::tables::{indexes_oids, lemma_not_owned, lemma_put_aliases, lemma_reindexed, reindexed, unique_oids};
use crate::cache::UpsertOutcome;
use crate::identity::{hyphenated, target_id};
use crate::order::before;
use crate::table::{ascending, has_key, keyed_at, lemma_lookup_at, lemma_lookup_found, lemma_put_lookup, lemma_put_rows, lookup, put, Row};
use crate::types::{AliasView, IdentityView, TargetSource};

verus! {

// ── The index of a batch ─────────────────────────────────────────────────────

/// The index that a batch keeps stays true to the table: where it maps exactly the
/// stored object ids to their rows, it does so again after an upsert, an object id
/// that the written row no longer has being gone. No object id comes to stand in
/// two rows, and every row but the one written stays as it is.
pub proof fn upserts_keep_the_index(
    state: CacheView,
    u: UpsertView,
    namespace: u128,
    index: Map<i64, (Seq<char>, TargetSource)>,
)
    requires
        ascending::<TargetRow>(state.targets),
        indexes_oids(index, state.targets),
    ensures
        ({
            let (key, outcome) = state.decision(u.identity, namespace);
            let derived = hyphenated(target_id(namespace, u.identity.primary_designation));
            let prior = existing_row(state.targets, u.identity, derived);
            let next = state.upserted(u, namespace);
            &&& indexes_oids(
                if outcome == UpsertOutcome::SkippedUserOverride {
                    index
                } else {
                    reindexed(index, prior, key, u.identity)
                },
                next.targets,
            )
            &&& unique_oids(next.targets)
            &&& forall|k: Seq<char>|
                k != key ==> #[trigger] lookup::<TargetRow>(next.targets, k) == lookup::<
                    TargetRow,
                >(state.targets, k)
        }),
{
    let (key, outcome) = state.decision(u.identity, namespace);
    let derived = hyphenated(target_id(namespace, u.identity.primary_designation));
    if outcome != UpsertOutcome::SkippedUserOverride {
        let row = TargetRowView::of(key, u.identity, u.resolved_at);
        lemma_reindexed(index, state.targets, u.identity, derived, u.resolved_at);
        let next = state.upserted(u, namespace);
        assert forall|k: Seq<char>| k != key implies #[trigger] lookup::<TargetRow>(
            next.targets,
            k,
        ) == lookup::<TargetRow>(state.targets, k) by {
            lemma_put_lookup::<TargetRow>(state.targets, row, k);
        }
    }
}

// ── Targets ──────────────────────────────────────────────────────────────────

/// Whether two rows differ in nothing but the time of the write.
pub open spec fn same_row(a: TargetRowView, b: TargetRowView) -> bool {
    b == (TargetRowView { resolved_at: b.resolved_at, ..a })
}

/// Whether two tables hold the same rows but for the times of the writes.
pub open spec fn same_rows(a: Seq<TargetRowView>, b: Seq<TargetRowView>) -> bool {
    &&& a.len() == b.len()
    &&& forall|i: int| 0 <= i < a.len() ==> same_row(#[trigger] a[i], b[i])
}

proof fn lemma_same_rows_front(a: Seq<TargetRowView>, b: Seq<TargetRowView>)
    requires
        same_rows(a, b),
        a.len() > 0,
    ensures
        same_rows(a.drop_last(), b.drop_last()),
        same_row(a.last(), b.last()),
{
    assert forall|i: int| 0 <= i < a.len() - 1 implies same_row(
        #[trigger] a.drop_last()[i],
        b.drop_last()[i],
    ) by {
        assert(same_row(a[i], b[i]));
    }
    assert(same_row(a[a.len() - 1], b[b.len() - 1]));
}

proof fn lemma_same_first(a: Seq<TargetRowView>, b: Seq<TargetRowView>, oid: i64)
    requires
        same_rows(a, b),
    ensures
        match (first_with_oid(a, oid), first_with_oid(b, oid)) {
            (Some(x), Some(y)) => same_row(x, y),
            (None, None) => true,
            _ => false,
        },
    decreases a.len(),
{
    if a.len() > 0 {
        lemma_same_rows_front(a, b);
        lemma_same_first(a.drop_last(), b.drop_last(), oid);
    }
}

proof fn lemma_same_lookup(a: Seq<TargetRowView>, b: Seq<TargetRowView>, k: Seq<char>)
    requires
        same_rows(a, b),
        ascending::<TargetRow>(a),
        ascending::<TargetRow>(b),
    ensures
        match (lookup::<TargetRow>(a, k), lookup::<TargetRow>(b, k)) {
            (Some(x), Some(y)) => same_row(x, y),
            (None, None) => true,
            _ => false,
        },
{
    if has_key::<TargetRow>(a, k) {
        let i = choose|i: int| keyed_at::<TargetRow>(a, k, i);
        assert(same_row(a[i], b[i]));
        assert(keyed_at::<TargetRow>(b, k, i));
        lemma_lookup_at::<TargetRow>(a, i);
        lemma_lookup_at::<TargetRow>(b, i);
    } else if has_key::<TargetRow>(b, k) {
        let i = choose|i: int| keyed_at::<TargetRow>(b, k, i);
        assert(same_row(a[i], b[i]));
        assert(keyed_at::<TargetRow>(a, k, i));
    }
}

/// What an upsert does depends on nothing but the rows, and not on their times.
proof fn lemma_same_decision(
    a: Seq<TargetRowView>,
    b: Seq<TargetRowView>,
    identity: IdentityView,
    derived: Seq<char>,
)
    requires
        same_rows(a, b),
        ascending::<TargetRow>(a),
        ascending::<TargetRow>(b),
    ensures
        decide(a, identity, derived) == decide(b, identity, derived),
{
    if let Some(oid) = identity.simbad_oid {
        lemma_same_first(a, b, oid);
    }
    lemma_same_lookup(a, b, derived);
}

proof fn lemma_same_put(
    a: Seq<TargetRowView>,
    b: Seq<TargetRowView>,
    x: TargetRowView,
    y: TargetRowView,
)
    requires
        same_rows(a, b),
        same_row(x, y),
    ensures
        same_rows(put::<TargetRow>(a, x), put::<TargetRow>(b, y)),
    decreases a.len(),
{
    if a.len() > 0 {
        lemma_same_rows_front(a, b);
        lemma_same_put(a.drop_last(), b.drop_last(), x, y);
        let p = put::<TargetRow>(a, x);
        let q = put::<TargetRow>(b, y);
        assert forall|i: int| 0 <= i < p.len() implies same_row(#[trigger] p[i], q[i]) by {
            if i < a.len() {
                assert(same_row(a[i], b[i]));
            }
            if i < a.len() - 1 {
                assert(same_row(a.drop_last()[i], b.drop_last()[i]));
            }
            let f = put::<TargetRow>(a.drop_last(), x);
            if i < f.len() {
                assert(same_row(f[i], put::<TargetRow>(b.drop_last(), y)[i]));
            }
        }
    }
}

// ── Aliases ──────────────────────────────────────────────────────────────────

/// What an alias table holds but for the ids of its rows: each alias with its
/// owner, as often as it is there.
pub open spec fn owned_aliases(s: Seq<AliasRowView>) -> Multiset<(Seq<char>, AliasView)> {
    s.map_values(|x: AliasRowView| (x.target_id, x.alias)).to_multiset()
}

proof fn lemma_owned_push(s: Seq<AliasRowView>, row: AliasRowView)
    ensures
        owned_aliases(s.push(row)) == owned_aliases(s).insert((row.target_id, row.alias)),
{
    broadcast use vstd::seq_lib::group_to_multiset_ensures;

    let f = |x: AliasRowView| (x.target_id, x.alias);
    assert(s.push(row).map_values(f) =~= s.map_values(f).push(f(row)));
}

proof fn lemma_owned_put(s: Seq<AliasRowView>, row: AliasRowView)
    requires
        !has_key::<AliasRow>(s, row.alias_id),
    ensures
        owned_aliases(put::<AliasRow>(s, row)) == owned_aliases(s).insert(
            (row.target_id, row.alias),
        ),
    decreases s.len(),
{
    if s.len() == 0 {
        assert(put::<AliasRow>(s, row) =~= s.push(row));
        lemma_owned_push(s, row);
    } else {
        let front = s.drop_last();
        let last = s.last();
        assert(keyed_at::<AliasRow>(s, last.alias_id, s.len() - 1));
        if before(AliasRow::key_of(row), AliasRow::key_of(last)) {
            assert(!has_key::<AliasRow>(front, row.alias_id)) by {
                if has_key::<AliasRow>(front, row.alias_id) {
                    let i = choose|i: int| keyed_at::<AliasRow>(front, row.alias_id, i);
                    assert(keyed_at::<AliasRow>(s, row.alias_id, i));
                }
            }
            lemma_owned_put(front, row);
            lemma_owned_push(front, last);
            lemma_owned_push(put::<AliasRow>(front, row), last);
            assert(s =~= front.push(last));
            assert(owned_aliases(put::<AliasRow>(s, row)) =~= owned_aliases(s).insert(
                (row.target_id, row.alias),
            ));
        } else {
            lemma_owned_push(s, row);
        }
    }
}

proof fn lemma_owned_rest(s: Seq<AliasRowView>, target: Seq<char>, p: (Seq<char>, AliasView))
    ensures
        owned_aliases(not_owned_by(s, target)).count(p) == if p.0 == target {
            0
        } else {
            owned_aliases(s).count(p)
        },
    decreases s.len(),
{
    broadcast use vstd::seq_lib::group_to_multiset_ensures;

    if s.len() > 0 {
        let front = s.drop_last();
        let last = s.last();
        lemma_owned_rest(front, target, p);
        assert(s =~= front.push(last));
        lemma_owned_push(front, last);
        if last.target_id != target {
            lemma_owned_push(not_owned_by(front, target), last);
        }
    } else {
        assert(s.map_values(|x: AliasRowView| (x.target_id, x.alias)) =~= Seq::empty());
    }
}

/// An id that neither the table nor the earlier ids have is new when its turn
/// comes.
proof fn lemma_put_is_new(
    s: Seq<AliasRowView>,
    owner: Seq<char>,
    aliases: Seq<AliasView>,
    ids: Seq<Seq<char>>,
    n: int,
)
    requires
        ascending::<AliasRow>(s),
        0 <= n < ids.len(),
        n <= aliases.len(),
        ids.no_duplicates(),
        !has_key::<AliasRow>(s, ids[n]),
    ensures
        !has_key::<AliasRow>(put_aliases(s, owner, aliases, ids, n), ids[n]),
{
    let q = put_aliases(s, owner, aliases, ids, n);
    lemma_put_aliases(s, owner, aliases, ids, n);
    if has_key::<AliasRow>(q, ids[n]) {
        lemma_lookup_found::<AliasRow>(q, ids[n]);
        let x = lookup::<AliasRow>(q, ids[n])->Some_0;
        assert(q.contains(x));
        if ids.take(n).contains(ids[n]) {
            let firsts = ids.take(n);
            let i = choose|i: int| 0 <= i < firsts.len() && firsts[i] == ids[n];
            assert(ids[i] == ids[n]);
        } else {
            assert(s.contains(x));
            let i = choose|i: int| 0 <= i < s.len() && s[i] == x;
            assert(keyed_at::<AliasRow>(s, ids[n], i));
        }
    }
}

/// Aliases that are put under ids of their own add the same to what is owned,
/// whichever the ids.
proof fn lemma_same_owned(
    a: Seq<AliasRowView>,
    b: Seq<AliasRowView>,
    owner: Seq<char>,
    aliases: Seq<AliasView>,
    ids_a: Seq<Seq<char>>,
    ids_b: Seq<Seq<char>>,
    n: int,
)
    requires
        ascending::<AliasRow>(a),
        ascending::<AliasRow>(b),
        owned_aliases(a) == owned_aliases(b),
        0 <= n <= aliases.len(),
        aliases.len() == ids_a.len(),
        aliases.len() == ids_b.len(),
        ids_a.no_duplicates(),
        ids_b.no_duplicates(),
        forall|i: int| 0 <= i < ids_a.len() ==> !has_key::<AliasRow>(a, #[trigger] ids_a[i]),
        forall|i: int| 0 <= i < ids_b.len() ==> !has_key::<AliasRow>(b, #[trigger] ids_b[i]),
    ensures
        owned_aliases(put_aliases(a, owner, aliases, ids_a, n)) == owned_aliases(
            put_aliases(b, owner, aliases, ids_b, n),
        ),
    decreases n,
{
    if n > 0 {
        lemma_same_owned(a, b, owner, aliases, ids_a, ids_b, n - 1);
        lemma_put_is_new(a, owner, aliases, ids_a, n - 1);
        lemma_put_is_new(b, owner, aliases, ids_b, n - 1);
        lemma_owned_put(
            put_aliases(a, owner, aliases, ids_a, n - 1),
            AliasRowView { alias_id: ids_a[n - 1], target_id: owner, alias: aliases[n - 1] },
        );
        lemma_owned_put(
            put_aliases(b, owner, aliases, ids_b, n - 1),
            AliasRowView { alias_id: ids_b[n - 1], target_id: owner, alias: aliases[n - 1] },
        );
    }
}

// ── Batches and single upserts ───────────────────────────────────────────────

/// Whether the alias ids of an upsert differ from each other and from those of all
/// alias rows that it leaves alone, as random ids do.
pub open spec fn draws_new_ids(state: CacheView, u: UpsertView, namespace: u128) -> bool {
    let (key, outcome) = state.decision(u.identity, namespace);
    outcome != UpsertOutcome::SkippedUserOverride ==> {
        &&& u.alias_ids.no_duplicates()
        &&& forall|i: int|
            0 <= i < u.alias_ids.len() ==> !has_key::<AliasRow>(
                not_owned_by(state.aliases, key),
                #[trigger] u.alias_ids[i],
            )
    }
}

/// Whether each of the first `n` upserts of a batch draws new ids when its turn
/// comes.
pub open spec fn all_draw_new_ids(
    start: CacheView,
    batch: Seq<UpsertView>,
    namespace: u128,
    n: int,
) -> bool
    decreases n,
{
    n > 0 ==> {
        &&& all_draw_new_ids(start, batch, namespace, n - 1)
        &&& upserts(start, batch, namespace, n - 1) matches Ok((state, _)) ==> draws_new_ids(
            state,
            batch[n - 1],
            namespace,
        )
    }
}

/// The tables stay in key order.
proof fn lemma_stays_ascending(state: CacheView, u: UpsertView, namespace: u128)
    requires
        ascending::<TargetRow>(state.targets),
        ascending::<AliasRow>(state.aliases),
        u.alias_ids.len() == stored_aliases(u.identity).len(),
    ensures
        ascending::<TargetRow>(state.upserted(u, namespace).targets),
        ascending::<AliasRow>(state.upserted(u, namespace).aliases),
{
    let (key, outcome) = state.decision(u.identity, namespace);
    let aliases = stored_aliases(u.identity);
    lemma_put_rows::<TargetRow>(
        state.targets,
        TargetRowView::of(key, u.identity, u.resolved_at),
    );
    lemma_not_owned(state.aliases, key);
    lemma_put_aliases(
        not_owned_by(state.aliases, key),
        key,
        aliases,
        u.alias_ids,
        aliases.len() as int,
    );
}

/// Upserts of the same identities come to the same, whatever was drawn for them: so
/// a batch gives what the same upserts one by one give, an identity being
/// deduplicated against the earlier ones of its batch. Either both stop at the same
/// key, or the ids and outcomes are equal, one for each upsert, the target rows are
/// equal but for the times, and, where all alias ids are new, the aliases of each
/// target are equal but for the ids of their rows.
pub proof fn batches_are_single_upserts(
    start: CacheView,
    batch: Seq<UpsertView>,
    singles: Seq<UpsertView>,
    namespace: u128,
    n: int,
)
    requires
        ascending::<TargetRow>(start.targets),
        ascending::<AliasRow>(start.aliases),
        0 <= n <= batch.len(),
        batch.len() == singles.len(),
        forall|i: int| 0 <= i < n ==> (#[trigger] batch[i]).identity == singles[i].identity,
        forall|i: int|
            0 <= i < n ==> (#[trigger] batch[i]).alias_ids.len() == stored_aliases(
                batch[i].identity,
            ).len(),
        forall|i: int|
            0 <= i < n ==> (#[trigger] singles[i]).alias_ids.len() == stored_aliases(
                singles[i].identity,
            ).len(),
    ensures
        match (
            upserts(start, batch, namespace, n),
            upserts(start, singles, namespace, n),
        ) {
            (Ok((a, results_a)), Ok((b, results_b))) => {
                &&& results_a == results_b
                &&& results_a.len() == n
                &&& same_rows(a.targets, b.targets)
                &&& all_draw_new_ids(start, batch, namespace, n) && all_draw_new_ids(
                    start,
                    singles,
                    namespace,
                    n,
                ) ==> owned_aliases(a.aliases) == owned_aliases(b.aliases)
                &&& ascending::<TargetRow>(a.targets) && ascending::<AliasRow>(a.aliases)
                &&& ascending::<TargetRow>(b.targets) && ascending::<AliasRow>(b.aliases)
            },
            (Err(x), Err(y)) => x == y,
            _ => false,
        },
    decreases n,
{
    if n > 0 {
        batches_are_single_upserts(start, batch, singles, namespace, n - 1);
        if let Ok((a, results)) = upserts(start, batch, namespace, n - 1) {
            let (b, _) = upserts(start, singles, namespace, n - 1)->Ok_0;
            let u = batch[n - 1];
            let v = singles[n - 1];
            assert(u.identity == v.identity);
            let derived = hyphenated(target_id(namespace, u.identity.primary_designation));
            lemma_same_decision(a.targets, b.targets, u.identity, derived);
            lemma_stays_ascending(a, u, namespace);
            lemma_stays_ascending(b, v, namespace);
            let (key, outcome) = a.decision(u.identity, namespace);
            if outcome != UpsertOutcome::SkippedUserOverride {
                lemma_same_put(
                    a.targets,
                    b.targets,
                    TargetRowView::of(key, u.identity, u.resolved_at),
                    TargetRowView::of(key, v.identity, v.resolved_at),
                );
                if all_draw_new_ids(start, batch, namespace, n) && all_draw_new_ids(
                    start,
                    singles,
                    namespace,
                    n,
                ) {
                    let rest_a = not_owned_by(a.aliases, key);
                    let rest_b = not_owned_by(b.aliases, key);
                    let aliases = stored_aliases(u.identity);
                    lemma_not_owned(a.aliases, key);
                    lemma_not_owned(b.aliases, key);
                    assert(owned_aliases(rest_a) =~= owned_aliases(rest_b)) by {
                        assert forall|p: (Seq<char>, AliasView)| owned_aliases(rest_a).count(p)
                            == owned_aliases(rest_b).count(p) by {
                            lemma_owned_rest(a.aliases, key, p);
                            lemma_owned_rest(b.aliases, key, p);
                        }
                    }
                    lemma_same_owned(
                        rest_a,
                        rest_b,
                        key,
                        aliases,
                        u.alias_ids,
                        v.alias_ids,
                        aliases.len() as int,
                    );
                }
            }
        }
    } else {
        assert forall|i: int| 0 <= i < start.targets.len() implies same_row(
            #[trigger] start.targets[i],
            start.targets[i],
        ) by {}
    }
}

} // verus!
