//! Which targets a fuzzy search adds, by which of their names, and in which order.

use vstd::prelude::*;

use crate::cache::state::CacheView;
use crate::cache::{CachedView, HitView, RANK_FUZZY};
use crate::config::ResolverConfig;
use crate::float::Single;
use crate::normalize::normalized;
use crate::orchestrate::{
    best_alias, filled, scored_targets, scores_at, searched, Scored, ScoredView,
};
use crate::order::{before, lemma_sorted, lemma_sorted_contains, sorted, Sortable};
use crate::text::byte_len;

verus! {

/// The name that a target is found by is the first of those with the highest score,
/// among the names with a score of at least `min`. No name is found only where no
/// name has such a score.
pub proof fn the_best_name_counts(scores: Seq<Single>, min: Single, n: int)
    requires
        0 <= n <= scores.len(),
    ensures
        best_alias(scores, min, n) matches Some((score, j)) ==> {
            &&& 0 <= j < n
            &&& score == scores[j]
            &&& score.at_least(min)
            &&& forall|k: int|
                0 <= k < n && (#[trigger] scores[k]).at_least(min) ==> score.at_least(scores[k])
            &&& forall|k: int|
                0 <= k < j && (#[trigger] scores[k]).at_least(min) ==> score.above(scores[k])
        },
        best_alias(scores, min, n) is None ==> forall|k: int|
            0 <= k < n ==> !(#[trigger] scores[k]).at_least(min),
    decreases n,
{
    if n > 0 {
        the_best_name_counts(scores, min, n - 1);
    }
}

/// Whether `x` is a target with the name that it is found by.
pub open spec fn is_scored(
    x: ScoredView,
    target: CachedView,
    scores: Seq<Single>,
    min: Single,
    j: int,
) -> bool {
    &&& 0 <= j < target.aliases.len()
    &&& j < scores.len()
    &&& x.hit.target == target
    &&& x.hit.matched_alias == target.aliases[j].alias
    &&& x.hit.rank == RANK_FUZZY
    &&& x.normalized_len == byte_len(target.aliases[j].normalized)
    &&& x.score == scores[j]
    &&& x.score.at_least(min)
    &&& forall|k: int|
        0 <= k < target.aliases.len() && k < scores.len() && (#[trigger] scores[k]).at_least(min)
            ==> x.score.at_least(scores[k])
}

/// With fewer scores than names, the names without a score have no say.
proof fn lemma_short_scores(scores: Seq<Single>, min: Single, n: int)
    requires
        n >= scores.len(),
    ensures
        best_alias(scores, min, n) == best_alias(scores, min, scores.len() as int),
    decreases n,
{
    if n > scores.len() {
        lemma_short_scores(scores, min, n - 1);
    }
}

/// The name of one target.
proof fn lemma_target(target: CachedView, scores: Seq<Single>, min: Single)
    ensures
        best_alias(scores, min, target.aliases.len() as int) matches Some((score, j)) ==> {
            &&& 0 <= j < target.aliases.len()
            &&& j < scores.len()
            &&& score == scores[j]
            &&& score.at_least(min)
            &&& forall|k: int|
                0 <= k < target.aliases.len() && k < scores.len() && (
                #[trigger] scores[k]).at_least(min) ==> score.at_least(scores[k])
        },
        best_alias(scores, min, target.aliases.len() as int) is None ==> forall|k: int|
            0 <= k < target.aliases.len() && k < scores.len() ==> !(
            #[trigger] scores[k]).at_least(min),
{
    let n = target.aliases.len() as int;
    if n >= scores.len() {
        lemma_short_scores(scores, min, n);
        the_best_name_counts(scores, min, scores.len() as int);
    } else {
        the_best_name_counts(scores, min, n);
    }
}

/// Every target that is no hit yet and has a name with a score of at least `min` is
/// scored, once for each place in the list, by the best of its names; nothing else
/// is.
pub proof fn every_near_target_is_scored(
    hits: Seq<HitView>,
    targets: Seq<CachedView>,
    scores: Seq<Vec<Single>>,
    min: Single,
    n: int,
) -> (at: Seq<int>)
    requires
        0 <= n <= targets.len(),
        scores.len() == targets.len(),
    ensures
        at.len() == scored_targets(hits, targets, scores, min, n).len(),
        forall|j: int, k: int| 0 <= j < k < at.len() ==> #[trigger] at[j] < #[trigger] at[k],
        forall|k: int|
            0 <= k < at.len() ==> 0 <= #[trigger] at[k] < n && (exists|j: int| #[trigger]
                is_scored(
                    scored_targets(hits, targets, scores, min, n)[k],
                    targets[at[k]],
                    scores[at[k]]@,
                    min,
                    j,
                )) && forall|h: int|
                0 <= h < hits.len() ==> (#[trigger] hits[h]).target.id != targets[at[k]].id,
        forall|i: int, j: int|
            0 <= i < n && 0 <= j < targets[i].aliases.len() && j < scores[i]@.len() && (
            #[trigger] scores[i]@[j]).at_least(min) && (forall|h: int|
                0 <= h < hits.len() ==> (#[trigger] hits[h]).target.id != targets[i].id)
                ==> at.contains(i),
    decreases n,
{
    if n == 0 {
        Seq::empty()
    } else {
        let front = every_near_target_is_scored(hits, targets, scores, min, n - 1);
        let s = scored_targets(hits, targets, scores, min, n - 1);
        let all = scored_targets(hits, targets, scores, min, n);
        let target = targets[n - 1];
        let own = scores[n - 1]@;
        lemma_target(target, own, min);
        assert(scores_at(scores, n - 1) == own);
        if !crate::orchestrate::has_target(hits, target.id) && best_alias(
            own,
            min,
            target.aliases.len() as int,
        ) is Some {
            let at = front.push(n - 1);
            let j = best_alias(own, min, target.aliases.len() as int)->Some_0.1;
            assert(is_scored(all[s.len() as int], target, own, min, j));
            assert forall|k: int| 0 <= k < at.len() implies 0 <= #[trigger] at[k] < n && (exists|
                j: int,
            | #[trigger]
                is_scored(all[k], targets[at[k]], scores[at[k]]@, min, j)) && forall|h: int|
                0 <= h < hits.len() ==> (#[trigger] hits[h]).target.id != targets[at[k]].id by {
                if k < front.len() {
                    assert(at[k] == front[k]);
                    assert(all[k] == s[k]);
                }
            }
            assert forall|i: int, j: int|
                0 <= i < n && 0 <= j < targets[i].aliases.len() && j < scores[i]@.len() && (
                #[trigger] scores[i]@[j]).at_least(min) && (forall|h: int|
                    0 <= h < hits.len() ==> (#[trigger] hits[h]).target.id
                        != targets[i].id) implies at.contains(i) by {
                if i < n - 1 {
                    let k = choose|k: int| 0 <= k < front.len() && front[k] == i;
                    assert(at[k] == i);
                } else {
                    assert(at[front.len() as int] == i);
                }
            }
            at
        } else {
            front
        }
    }
}

/// The hits that are added stand in the order of their scores, the highest first;
/// hits of one score in the order of the lengths of their names, the shortest first;
/// and hits of one score and length in the order of their designations. They are the
/// first in that order: what finds no room stands behind all of them. Gives the
/// added hits with what they are ordered by.
pub proof fn fuzzy_hits_are_ordered(
    hits: Seq<HitView>,
    targets: Seq<CachedView>,
    scores: Seq<Vec<Single>>,
    min: Single,
    limit: int,
) -> (added: Seq<ScoredView>)
    requires
        hits.len() < limit,
    ensures
        filled(hits, targets, scores, min, limit) == hits + added.map_values(
            |x: ScoredView| x.hit,
        ),
        ({
            let all = scored_targets(hits, targets, scores, min, targets.len() as int);
            &&& added.len() == if all.len() <= limit - hits.len() {
                all.len() as int
            } else {
                limit - hits.len()
            }
            &&& forall|k: int| 0 <= k < added.len() ==> all.contains(#[trigger] added[k])
            &&& forall|x: ScoredView| #[trigger]
                all.contains(x) ==> added.contains(x) || forall|k: int|
                    0 <= k < added.len() ==> stands_before(#[trigger] added[k], x)
        }),
        forall|j: int, k: int|
            0 <= j < k < added.len() ==> stands_before(#[trigger] added[j], #[trigger] added[k]),
{
    let all = scored_targets(hits, targets, scores, min, targets.len() as int);
    let best = sorted::<Scored>(all);
    lemma_sorted::<Scored>(all);
    let room = limit - hits.len();
    let n = if room < best.len() {
        room
    } else {
        best.len() as int
    };
    let added = best.take(n);
    assert forall|j: int, k: int| 0 <= j < k < best.len() implies stands_before(
        #[trigger] best[j],
        #[trigger] best[k],
    ) by {
        assert(!Scored::after(best[j], best[k]));
    }
    assert forall|j: int, k: int| 0 <= j < k < added.len() implies stands_before(
        #[trigger] added[j],
        #[trigger] added[k],
    ) by {
        assert(stands_before(best[j], best[k]));
    }
    assert forall|k: int| 0 <= k < added.len() implies all.contains(#[trigger] added[k]) by {
        assert(best.contains(best[k]));
        lemma_sorted_contains::<Scored>(all, best[k]);
    }
    assert forall|x: ScoredView| #[trigger] all.contains(x) implies added.contains(x) || forall|
        k: int,
    |
        0 <= k < added.len() ==> stands_before(#[trigger] added[k], x) by {
        lemma_sorted_contains::<Scored>(all, x);
        let i = choose|i: int| 0 <= i < best.len() && best[i] == x;
        if i < n {
            assert(added[i] == x);
        } else {
            assert forall|k: int| 0 <= k < added.len() implies stands_before(
                #[trigger] added[k],
                x,
            ) by {
                assert(stands_before(best[k], best[i]));
            }
        }
    }
    added
}

/// Whether `a` may stand before `b`: its score is higher or, the scores being equal,
/// its name is shorter or, the lengths being equal too, its designation is not the
/// later one.
pub open spec fn stands_before(a: ScoredView, b: ScoredView) -> bool {
    ||| a.score.total_rank() > b.score.total_rank()
    ||| a.score.total_rank() == b.score.total_rank() && a.normalized_len < b.normalized_len
    ||| a.score.total_rank() == b.score.total_rank() && a.normalized_len == b.normalized_len
        && !before(b.hit.target.primary_designation, a.hit.target.primary_designation)
}

/// A search is filled up with fuzzy hits wherever fuzzy search is on, the query has a
/// normalized form and the other hits leave room, whether there are other hits or
/// not.
pub proof fn searches_are_filled_while_there_is_room(
    state: CacheView,
    config: ResolverConfig,
    query: Seq<char>,
    limit: int,
    scores: Seq<Vec<Single>>,
    min: Single,
    hits: Seq<HitView>,
    targets: Seq<CachedView>,
)
    requires
        config.fuzzy_min_score == Some(min),
        normalized(query).len() > 0,
        state.found(query, limit) == Ok::<_, Seq<char>>(hits),
        hits.len() < limit,
        state.listed() == Ok::<_, Seq<char>>(targets),
    ensures
        searched(state, config, query, limit, scores) == Ok::<_, Seq<char>>(
            filled(hits, targets, scores, min, limit),
        ),
{
}

} // verus!
