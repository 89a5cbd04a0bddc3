//! What holds of every search.

use vstd::prelude::*;

use crate::cache::laws::{all_owned, canonical_owners};
use crate::cache::search::{bests, rank_of, ranked, Best, BestView};
use crate::cache::state::{AliasRowView, CacheView, TargetRow};
use crate::cache::{HitView, RANK_EXACT, RANK_PREFIX, RANK_SUBSTRING};
use crate::identity::{hyphenated, id_text_round_trips, is_id_text};
use crate::normalize::normalized;
use crate::order::{before, in_order, lemma_sorted, lemma_sorted_contains, Sortable};
use crate::table::{ascending, has_key, lemma_key_unique, lemma_lookup_at, lemma_lookup_found, lemma_put_lookup, lemma_put_rows, lookup};
use crate::text::{byte_len, has_prefix};
use crate::text_laws::{a_part_occurs_in_the_whole, an_occurrence_is_a_part};

verus! {

/// Whether `b` is the match of `row`.
pub open spec fn is_match(b: BestView, row: AliasRowView, q: Seq<char>) -> bool {
    rank_of(row.alias.normalized, q) == Some(b.rank) && b == BestView::of(row, b.rank)
}

/// The best matches stand under their targets, each is the match of an alias,
/// and no alias is a better match for its target.
pub proof fn lemma_bests(s: Seq<AliasRowView>, q: Seq<char>)
    ensures
        ascending::<Best>(bests(s, q)),
        forall|b: BestView| #[trigger]
            bests(s, q).contains(b) ==> exists|row: AliasRowView| #[trigger]
                s.contains(row) && is_match(b, row, q),
        forall|row: AliasRowView| #[trigger]
            s.contains(row) ==> (rank_of(row.alias.normalized, q) matches Some(r) ==> lookup::<
                Best,
            >(bests(s, q), row.target_id) matches Some(b) && !BestView::of(row, r).better_than(b)),
    decreases s.len(),
{
    if s.len() > 0 {
        let front = s.drop_last();
        let last = s.last();
        lemma_bests(front, q);
        let f = bests(front, q);
        let all = bests(s, q);
        assert(s =~= front.push(last));
        assert forall|x: AliasRowView| #[trigger]
            s.contains(x) <==> (front.contains(x) || x == last) by {
            vstd::seq_lib::lemma_seq_contains_after_push(front, last, x);
        }
        assert(s.contains(last));
        lemma_lookup_found::<Best>(f, last.target_id);
        match rank_of(last.alias.normalized, q) {
            None => {
                assert forall|b: BestView| #[trigger] all.contains(b) implies exists|
                    row: AliasRowView,
                | #[trigger] s.contains(row) && is_match(b, row, q) by {
                    let row = choose|row: AliasRowView| #[trigger]
                        front.contains(row) && is_match(b, row, q);
                    assert(s.contains(row));
                }
            },
            Some(r) => {
                let c = BestView::of(last, r);
                assert(is_match(c, last, q));
                lemma_put_rows::<Best>(f, c);
                assert forall|b: BestView| #[trigger] all.contains(b) implies exists|
                    row: AliasRowView,
                | #[trigger] s.contains(row) && is_match(b, row, q) by {
                    if b == c {
                        assert(s.contains(last));
                    } else {
                        assert(f.contains(b));
                        let row = choose|row: AliasRowView| #[trigger]
                            front.contains(row) && is_match(b, row, q);
                        assert(s.contains(row));
                    }
                }
                assert forall|row: AliasRowView| #[trigger]
                    s.contains(row) implies (rank_of(row.alias.normalized, q) matches Some(p) ==>
                    lookup::<Best>(all, row.target_id) matches Some(b) && !BestView::of(
                    row,
                    p,
                ).better_than(b)) by {
                    lemma_put_lookup::<Best>(f, c, row.target_id);
                    if row != last {
                        assert(front.contains(row));
                    }
                }
            },
        }
    } else {
        assert(bests(s, q) =~= Seq::empty());
    }
}

/// The first `n` of a list of best matches whose targets are stored.
pub open spec fn stored_matches(state: CacheView, list: Seq<BestView>, n: int) -> Seq<BestView>
    decreases n,
{
    if n <= 0 {
        Seq::empty()
    } else if has_key::<TargetRow>(state.targets, list[n - 1].target_id) {
        stored_matches(state, list, n - 1).push(list[n - 1])
    } else {
        stored_matches(state, list, n - 1)
    }
}

/// The hits of a list of best matches are those whose targets are stored, one for
/// one.
proof fn lemma_hits(state: CacheView, list: Seq<BestView>, n: int)
    requires
        0 <= n <= list.len(),
        forall|i: int| 0 <= i < list.len() ==> is_id_text((#[trigger] list[i]).target_id),
    ensures
        state.hits(list, n) matches Ok(hits) && ({
            let shown = stored_matches(state, list, n);
            &&& hits.len() == shown.len()
            &&& forall|i: int|
                0 <= i < hits.len() ==> {
                    &&& hyphenated((#[trigger] hits[i]).target.id) == shown[i].target_id
                    &&& state.by_id(hits[i].target.id) == Some(hits[i].target)
                    &&& hits[i].matched_alias == shown[i].alias
                    &&& hits[i].rank == shown[i].rank
                }
        }),
    decreases n,
{
    if n > 0 {
        lemma_hits(state, list, n - 1);
        let b = list[n - 1];
        assert(is_id_text(b.target_id));
        let id = choose|id: u128| b.target_id == hyphenated(id);
        id_text_round_trips(id);
    }
}

/// Matches with stored targets stand in the order of the list.
proof fn lemma_stored_matches(state: CacheView, list: Seq<BestView>, n: int)
    requires
        0 <= n <= list.len(),
        in_order::<Best>(list),
        forall|i: int, j: int|
            0 <= i < j < list.len() ==> (#[trigger] list[i]).target_id != (
            #[trigger] list[j]).target_id,
    ensures
        ({
            let shown = stored_matches(state, list, n);
            &&& shown.len() <= n
            &&& forall|k: int|
                0 <= k < shown.len() ==> exists|i: int|
                    0 <= i < n && #[trigger] list[i] == #[trigger] shown[k]
            &&& forall|k: int, l: int|
                0 <= k < l < shown.len() ==> !Best::after(#[trigger] shown[k], #[trigger] shown[l])
                    && shown[k].target_id != shown[l].target_id
            &&& forall|i: int|
                0 <= i < n && has_key::<TargetRow>(
                    state.targets,
                    (#[trigger] list[i]).target_id,
                ) ==> shown.contains(list[i])
        }),
    decreases n,
{
    if n > 0 {
        lemma_stored_matches(state, list, n - 1);
        let front = stored_matches(state, list, n - 1);
        let shown = stored_matches(state, list, n);
        assert forall|k: int| 0 <= k < shown.len() implies exists|i: int|
            0 <= i < n && #[trigger] list[i] == #[trigger] shown[k] by {
            if k < front.len() {
                let i = choose|i: int| 0 <= i < n - 1 && #[trigger] list[i] == front[k];
                assert(list[i] == shown[k]);
            } else {
                assert(list[n - 1] == shown[k]);
            }
        }
        assert forall|k: int, l: int| 0 <= k < l < shown.len() implies !Best::after(
            #[trigger] shown[k],
            #[trigger] shown[l],
        ) && shown[k].target_id != shown[l].target_id by {
            assert(shown[k] == front[k]);
            if l < front.len() {
                assert(shown[l] == front[l]);
            } else {
                let i = choose|i: int| 0 <= i < n - 1 && #[trigger] list[i] == front[k];
                assert(!Best::after(list[i], list[n - 1]));
                assert(list[i].target_id != list[n - 1].target_id);
            }
        }
        assert forall|i: int|
            0 <= i < n && has_key::<TargetRow>(
                state.targets,
                (#[trigger] list[i]).target_id,
            ) implies shown.contains(list[i]) by {
            if i < n - 1 {
                let k = choose|k: int| 0 <= k < front.len() && front[k] == list[i];
                assert(shown[k] == list[i]);
            } else {
                assert(shown[shown.len() - 1] == list[i]);
            }
        }
    }
}

/// The matches in the order in which they are shown: in order, all of them, and
/// no target twice.
proof fn lemma_ranked(s: Seq<AliasRowView>, q: Seq<char>)
    ensures
        in_order::<Best>(ranked(s, q)),
        ranked(s, q).len() == bests(s, q).len(),
        forall|b: BestView| #[trigger] ranked(s, q).contains(b) <==> bests(s, q).contains(b),
        forall|i: int, j: int|
            0 <= i < j < ranked(s, q).len() ==> (#[trigger] ranked(s, q)[i]).target_id != (
            #[trigger] ranked(s, q)[j]).target_id,
{
    broadcast use vstd::seq_lib::group_to_multiset_ensures;

    lemma_bests(s, q);
    let b = bests(s, q);
    let r = ranked(s, q);
    lemma_sorted::<Best>(b);
    assert forall|x: BestView| #[trigger] r.contains(x) <==> b.contains(x) by {
        lemma_sorted_contains::<Best>(b, x);
    }
    assert forall|i: int, j: int| 0 <= i < j < r.len() implies (#[trigger] r[i]).target_id != (
    #[trigger] r[j]).target_id by {
        if r[i].target_id == r[j].target_id {
            let x = r[i];
            let y = r[j];
            assert(r.contains(x) && r.contains(y));
            let m = choose|m: int| 0 <= m < b.len() && b[m] == x;
            let k = choose|k: int| 0 <= k < b.len() && b[k] == y;
            lemma_key_unique::<Best>(b, m, k);
            assert(x == y);
            assert(b.no_duplicates()) by {
                assert forall|p: int, o: int| 0 <= p < b.len() && 0 <= o < b.len() && p
                    != o implies b[p] != b[o] by {
                    if b[p] == b[o] {
                        lemma_key_unique::<Best>(b, p, o);
                    }
                }
            }
            b.lemma_multiset_has_no_duplicates();
            r.lemma_multiset_has_no_duplicates_conv();
            assert(r.no_duplicates());
        }
    }
}

/// Whether `row` is what the hit `hit` was found by: an alias of its target, of
/// that display form and rank, and no alias of the target is a better match.
pub open spec fn found_by(
    aliases: Seq<AliasRowView>,
    q: Seq<char>,
    hit: HitView,
    row: AliasRowView,
) -> bool {
    &&& aliases.contains(row)
    &&& row.target_id == hyphenated(hit.target.id)
    &&& row.alias.alias == hit.matched_alias
    &&& rank_of(row.alias.normalized, q) == Some(hit.rank)
    &&& forall|x: AliasRowView| #[trigger]
        aliases.contains(x) && x.target_id == row.target_id ==> (rank_of(x.alias.normalized, q)
            matches Some(r) ==> hit.rank < r || (hit.rank == r && byte_len(row.alias.normalized)
            <= byte_len(x.alias.normalized)))
}

/// Whether hits are ordered by rank, then by the length of the normalized form that
/// they were found by, then by the display form.
pub open spec fn ranked_by(hits: Seq<HitView>, rows: Seq<AliasRowView>) -> bool {
    forall|i: int, j: int|
        0 <= i < j < hits.len() ==> {
            let a = (#[trigger] hits[i]).rank;
            let b = (#[trigger] hits[j]).rank;
            let m = byte_len(rows[i].alias.normalized);
            let n = byte_len(rows[j].alias.normalized);
            ||| a < b
            ||| a == b && m < n
            ||| a == b && m == n && !before(hits[j].matched_alias, hits[i].matched_alias)
        }
}

/// A search succeeds where the owners of all aliases are ids. It finds at most
/// `limit` hits and no target twice, and every hit is a stored target. Each was
/// found by the best match among the aliases of its target; exact matches stand
/// before prefixes and those before parts, then the shorter alias before the
/// longer, then aliases in their own order.
pub proof fn search_is_ranked_and_bounded(state: CacheView, query: Seq<char>, limit: int)
    requires
        canonical_owners(state.aliases),
        limit >= 0,
    ensures
        state.found(query, limit) matches Ok(hits) && {
            &&& hits.len() <= limit
            &&& forall|i: int, j: int|
                0 <= i < j < hits.len() ==> (#[trigger] hits[i]).target.id != (
                #[trigger] hits[j]).target.id
            &&& forall|i: int|
                0 <= i < hits.len() ==> state.by_id((#[trigger] hits[i]).target.id) == Some(
                    hits[i].target,
                )
            &&& exists|rows: Seq<AliasRowView>|
                {
                    &&& rows.len() == hits.len()
                    &&& forall|i: int|
                        0 <= i < hits.len() ==> found_by(
                            state.aliases,
                            normalized(query),
                            #[trigger] hits[i],
                            rows[i],
                        )
                    &&& #[trigger] ranked_by(hits, rows)
                }
        },
{
    let q = normalized(query);
    if q.len() > 0 && limit > 0 {
        let list = ranked(state.aliases, q);
        lemma_ranked_owners(state, q);
        let n = if limit < list.len() {
            limit
        } else {
            list.len() as int
        };
        lemma_hits(state, list, n);
        lemma_stored_matches(state, list, n);
        let hits = state.found(query, limit)->Ok_0;
        let shown = stored_matches(state, list, n);
        let rows = Seq::new(
            hits.len(),
            |i: int|
                choose|row: AliasRowView| #[trigger]
                    state.aliases.contains(row) && is_match(shown[i], row, q),
        );
        assert forall|i: int| 0 <= i < hits.len() implies found_by(
            state.aliases,
            q,
            #[trigger] hits[i],
            rows[i],
        ) && shown[i] == BestView::of(rows[i], hits[i].rank) by {
            let k = choose|k: int| 0 <= k < n && #[trigger] list[k] == shown[i];
            assert(list.contains(list[k]));
            lemma_best_of_target(state.aliases, q, shown[i]);
        }
        assert(ranked_by(hits, rows)) by {
            assert forall|i: int, j: int| 0 <= i < j < hits.len() implies {
                let a = (#[trigger] hits[i]).rank;
                let b = (#[trigger] hits[j]).rank;
                let m = byte_len(rows[i].alias.normalized);
                let n = byte_len(rows[j].alias.normalized);
                ||| a < b
                ||| a == b && m < n
                ||| a == b && m == n && !before(hits[j].matched_alias, hits[i].matched_alias)
            } by {
                assert(!Best::after(shown[i], shown[j]));
                assert(found_by(state.aliases, q, hits[i], rows[i]));
                assert(found_by(state.aliases, q, hits[j], rows[j]));
            }
        }
        assert forall|i: int, j: int| 0 <= i < j < hits.len() implies (
        #[trigger] hits[i]).target.id != (#[trigger] hits[j]).target.id by {
            assert(shown[i].target_id != shown[j].target_id);
        }
    } else {
        assert(ranked_by(Seq::empty(), Seq::empty()));
    }
}

/// The matches that are shown belong to ids, where all aliases do.
proof fn lemma_ranked_owners(state: CacheView, q: Seq<char>)
    requires
        canonical_owners(state.aliases),
    ensures
        ({
            let list = ranked(state.aliases, q);
            &&& in_order::<Best>(list)
            &&& forall|i: int| 0 <= i < list.len() ==> is_id_text((#[trigger] list[i]).target_id)
            &&& forall|i: int, j: int|
                0 <= i < j < list.len() ==> (#[trigger] list[i]).target_id != (
                #[trigger] list[j]).target_id
            &&& forall|b: BestView| #[trigger]
                list.contains(b) <==> bests(state.aliases, q).contains(b)
        }),
{
    let list = ranked(state.aliases, q);
    lemma_ranked(state.aliases, q);
    lemma_bests(state.aliases, q);
    assert forall|i: int| 0 <= i < list.len() implies is_id_text(
        (#[trigger] list[i]).target_id,
    ) by {
        assert(list.contains(list[i]));
        let row = choose|row: AliasRowView| #[trigger]
            state.aliases.contains(row) && is_match(list[i], row, q);
        assert(is_id_text(row.target_id));
    }
}

/// A best match is the match of an alias, and no alias of its target is better.
proof fn lemma_best_of_target(s: Seq<AliasRowView>, q: Seq<char>, b: BestView)
    requires
        bests(s, q).contains(b),
    ensures
        exists|row: AliasRowView| #[trigger] s.contains(row) && is_match(b, row, q),
        forall|x: AliasRowView| #[trigger]
            s.contains(x) && x.target_id == b.target_id ==> (rank_of(x.alias.normalized, q)
                matches Some(r) ==> !BestView::of(x, r).better_than(b)),
{
    lemma_bests(s, q);
    let all = bests(s, q);
    let i = choose|i: int| 0 <= i < all.len() && all[i] == b;
    lemma_lookup_at::<Best>(all, i);
}

/// An alias that is the query matches exactly. One that begins with the query and
/// goes on is a prefix match, whatever it goes on with. Any other alias that has
/// the query as a run of consecutive characters matches as a part, wherever in
/// the alias the run begins and ends. No other alias matches.
pub proof fn every_run_of_an_alias_matches(a: Seq<char>, q: Seq<char>, b: Seq<char>)
    ensures
        rank_of(q, q) == Some(RANK_EXACT),
        b.len() > 0 ==> rank_of(q + b, q) == Some(RANK_PREFIX),
        rank_of(a + q + b, q) is Some,
        (forall|t: Seq<char>| a + q + b != #[trigger] (q + t)) ==> rank_of(a + q + b, q) == Some(
            RANK_SUBSTRING,
        ),
        RANK_EXACT < RANK_PREFIX < RANK_SUBSTRING,
{
    let whole = a + q + b;
    a_part_occurs_in_the_whole(a, q, b);
    if b.len() > 0 {
        assert((q + b).len() > q.len());
    }
    if forall|t: Seq<char>| whole != #[trigger] (q + t) {
        an_occurrence_is_a_part(whole, q);
        assert(q + Seq::<char>::empty() =~= q);
        assert(whole != q + Seq::<char>::empty());
    }
}

/// An alias that matches has the query as a run of consecutive characters; it is
/// the query where the match is exact, and it begins with the query and goes on
/// where the match is one of a prefix.
pub proof fn only_runs_of_an_alias_match(form: Seq<char>, q: Seq<char>)
    ensures
        rank_of(form, q) is Some <==> exists|a: Seq<char>, b: Seq<char>| form == #[trigger] (a + q
            + b),
        rank_of(form, q) == Some(RANK_EXACT) <==> form == q,
        rank_of(form, q) == Some(RANK_PREFIX) <==> exists|b: Seq<char>|
            b.len() > 0 && form == #[trigger] (q + b),
{
    an_occurrence_is_a_part(form, q);
    let none = Seq::<char>::empty();
    if exists|a: Seq<char>, b: Seq<char>| form == #[trigger] (a + q + b) {
        let (a, b) = choose|a: Seq<char>, b: Seq<char>| form == #[trigger] (a + q + b);
        every_run_of_an_alias_matches(a, q, b);
    }
    if form == q {
        assert(form =~= none + q + none);
    } else if has_prefix(form, q) {
        let b = choose|b: Seq<char>| form == #[trigger] (q + b);
        assert(q + none =~= q);
        assert(b.len() > 0);
        assert(form =~= none + q + b);
    }
    if exists|b: Seq<char>| b.len() > 0 && form == #[trigger] (q + b) {
        let b = choose|b: Seq<char>| b.len() > 0 && form == #[trigger] (q + b);
        every_run_of_an_alias_matches(none, q, b);
    }
}

/// A search leaves nothing out while there is room: the target of every matching
/// alias is among the hits, by a match that is at least as good, where it is stored
/// and the matches are no more than `limit`; and where all aliases have stored
/// targets, that is so whenever fewer than `limit` hits come back.
pub proof fn search_is_complete(
    state: CacheView,
    query: Seq<char>,
    limit: int,
    row: AliasRowView,
    rank: u8,
)
    requires
        canonical_owners(state.aliases),
        limit > 0,
        normalized(query).len() > 0,
        state.aliases.contains(row),
        has_key::<TargetRow>(state.targets, row.target_id),
        rank_of(row.alias.normalized, normalized(query)) == Some(rank),
    ensures
        state.found(query, limit) matches Ok(hits) && ((all_owned(state) && hits.len() < limit)
            || bests(state.aliases, normalized(query)).len() <= limit ==> exists|i: int|
            0 <= i < hits.len() && hyphenated((#[trigger] hits[i]).target.id) == row.target_id
                && hits[i].rank <= rank),
{
    let q = normalized(query);
    let list = ranked(state.aliases, q);
    lemma_ranked(state.aliases, q);
    lemma_ranked_owners(state, q);
    lemma_bests(state.aliases, q);
    let n = if limit < list.len() {
        limit
    } else {
        list.len() as int
    };
    lemma_hits(state, list, n);
    lemma_stored_matches(state, list, n);
    let shown = stored_matches(state, list, n);
    let hits = state.found(query, limit)->Ok_0;
    if all_owned(state) {
        lemma_all_shown(state, q, n);
    }
    if n == list.len() {
        lemma_lookup_found::<Best>(bests(state.aliases, q), row.target_id);
        let b = lookup::<Best>(bests(state.aliases, q), row.target_id)->Some_0;
        assert(list.contains(b));
        let i = choose|i: int| 0 <= i < list.len() && list[i] == b;
        assert(shown.contains(list[i]));
        let k = choose|k: int| 0 <= k < shown.len() && shown[k] == b;
        assert(hyphenated(hits[k].target.id) == row.target_id);
    }
}

/// Where all aliases have stored targets, every match is shown.
proof fn lemma_all_shown(state: CacheView, q: Seq<char>, n: int)
    requires
        all_owned(state),
        0 <= n <= ranked(state.aliases, q).len(),
    ensures
        stored_matches(state, ranked(state.aliases, q), n).len() == n,
    decreases n,
{
    if n > 0 {
        lemma_all_shown(state, q, n - 1);
        lemma_ranked(state.aliases, q);
        lemma_bests(state.aliases, q);
        let b = ranked(state.aliases, q)[n - 1];
        assert(ranked(state.aliases, q).contains(b));
        let row = choose|row: AliasRowView| #[trigger]
            state.aliases.contains(row) && is_match(b, row, q);
        assert(has_key::<TargetRow>(state.targets, row.target_id));
    }
}

/// A blank query and a limit of zero find nothing.
pub proof fn blank_search_finds_nothing(state: CacheView, query: Seq<char>, limit: int)
    requires
        normalized(query).len() == 0 || limit <= 0,
    ensures
        state.found(query, limit) == Ok::<Seq<HitView>, Seq<char>>(Seq::empty()),
{
}

/// A query that is any part of the normalized form of an alias finds the target of
/// that alias, while there is room: as an exact match or a better one where the
/// query is all of the form, and as a match of a prefix or a better one where the
/// form begins with it.
pub proof fn parts_of_names_are_found(
    state: CacheView,
    query: Seq<char>,
    limit: int,
    row: AliasRowView,
    a: Seq<char>,
    b: Seq<char>,
)
    requires
        canonical_owners(state.aliases),
        limit > 0,
        normalized(query).len() > 0,
        state.aliases.contains(row),
        has_key::<TargetRow>(state.targets, row.target_id),
        row.alias.normalized == a + normalized(query) + b,
    ensures
        state.found(query, limit) matches Ok(hits) && ((all_owned(state) && hits.len() < limit)
            || bests(state.aliases, normalized(query)).len() <= limit ==> exists|i: int|
            0 <= i < hits.len() && hyphenated((#[trigger] hits[i]).target.id) == row.target_id && (
            a.len() == 0 ==> hits[i].rank <= RANK_PREFIX) && (a.len() == 0 && b.len() == 0
                ==> hits[i].rank == RANK_EXACT)),
{
    let q = normalized(query);
    every_run_of_an_alias_matches(a, q, b);
    if a.len() == 0 {
        assert(a + q + b =~= q + b);
        if b.len() == 0 {
            assert(q + b =~= q);
        }
    }
    search_is_complete(
        state,
        query,
        limit,
        row,
        rank_of(row.alias.normalized, q)->Some_0,
    );
}

} // verus!
