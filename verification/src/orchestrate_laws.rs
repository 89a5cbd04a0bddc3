//! What holds of resolving, overriding and searching as a whole.

use vstd::prelude::*;

use crate::cache::laws::{canonical, first_aliases_are_stored, ids_differ, lemma_same_aliases, list_has_every_target, names_lead_to_one_target, names_of_a_target_find_it, overwriting_keeps_sound, overwriting_touches_one_row, reads_succeed, sound, stored_aliases_are_complete, stored_aliases_are_found, stored_form_is_found, upsert_keeps_sound, upsert_succeeds, written_identity_is_read_back};
use crate::cache::search::{ranked, BestView};
use crate::cache::search_laws::search_is_ranked_and_bounded;
use crate::cache::state::{existing_row, first_with_oid, stored_aliases, AliasRow, AliasRowView, CacheView, TargetRow, TargetRowView, UpsertView};
use crate::cache::tables::lemma_first_with_oid;
use crate::cache::{CacheError, CachedView, HitView, UpsertOutcome, RANK_FUZZY};
use crate::caldwell::{caldwell_number, plainly_spelled, spellings_normalize_alike};
use crate::config::ResolverConfig;
use crate::error::ErrorView;
use crate::float::Single;
use crate::identity::{hyphenated, target_id};
use crate::normalize::normalized;
use crate::orchestrate::{after_answer, best_alias, bound, comes_to, filled, has_target, hits_of, overridden, plan_of, resolves, scored_targets, scores_at, searched, stores, PlanView, Resolution, ResolutionView, Scored, ScoredView};
use crate::order::{lemma_same_elements_differ, lemma_sorted, lemma_sorted_contains, sorted};
use crate::resolver::Resolver;
use crate::table::{ascending, lemma_lookup_at, lemma_lookup_found, lemma_lookup_iff, lemma_put_lookup, lemma_put_rows, lookup};
use crate::text::trimmed;
use crate::types::{forms_computed, forms_differ, has_display, has_normalized, AliasKind, IdentityView, TargetSource};

verus! {

// ── Resolving ────────────────────────────────────────────────────────────────

/// A query whose normalized form is stored is answered from the store: neither
/// the resolver nor the store changes, online or not.
pub proof fn stored_queries_are_not_asked<R: Resolver>(
    resolver: R,
    state: CacheView,
    config: ResolverConfig,
    query: Seq<char>,
    row: AliasRowView,
    r: Result<Resolution, CacheError>,
    resolver_after: R,
    state_after: CacheView,
)
    requires
        sound(state),
        plan_of(query) is Ok,
        normalized(query).len() > 0,
        state.aliases.contains(row),
        row.alias.normalized == normalized(query),
        resolves(resolver, state, config, query, r, resolver_after, state_after),
    ensures
        r matches Ok(Resolution::Resolved(t)) && has_normalized(t@.aliases, normalized(query)),
        resolver_after == resolver,
        state_after == state,
{
    stored_form_is_found(state, row);
    let keys = plan_of(query)->Ok_0.keys;
    assert(keys[0] == normalized(query));
}

/// Looking up the keys of a plan in a sound store never fails.
proof fn lemma_first_of_succeeds(state: CacheView, keys: Seq<Seq<char>>, i: int)
    requires
        sound(state),
    ensures
        state.first_of(keys, i) is Ok,
    decreases keys.len() - i,
{
    if 0 <= i < keys.len() {
        reads_succeed(state, 0, keys[i]);
        lemma_first_of_succeeds(state, keys, i + 1);
    }
}

/// Resolving over a sound store never fails, and leaves the store sound.
pub proof fn resolving_keeps_sound<R: Resolver>(
    resolver: R,
    state: CacheView,
    config: ResolverConfig,
    query: Seq<char>,
    r: Result<Resolution, CacheError>,
    resolver_after: R,
    state_after: CacheView,
)
    requires
        sound(state),
        resolves(resolver, state, config, query, r, resolver_after, state_after),
    ensures
        r is Ok,
        sound(state_after),
{
    if let Ok(plan) = plan_of(query) {
        lemma_first_of_succeeds(state, plan.keys, 0);
        if state.first_of(plan.keys, 0) == Ok::<Option<CachedView>, Seq<char>>(None)
            && config.online_enabled {
            let (answer, u) = choose|answer: Result<IdentityView, ErrorView>, u: UpsertView|
                {
                    &&& #[trigger] stores(u, plan, answer)
                    &&& resolver.answers(plan.simbad_query, answer, resolver_after)
                    &&& comes_to(r, after_answer(state, plan, config.namespace, answer, u).0)
                    &&& state_after == after_answer(state, plan, config.namespace, answer, u).1
                };
            if let Ok(identity) = answer {
                upsert_succeeds(state, u.identity, config.namespace);
                upsert_keeps_sound(state, u, config.namespace);
            }
        }
    }
}

/// What the resolver answers is stored and given back: the query comes to the
/// target that is stored under the id of the upsert.
pub proof fn answers_are_stored(
    state: CacheView,
    plan: PlanView,
    namespace: u128,
    identity: IdentityView,
    u: UpsertView,
)
    requires
        sound(state),
        stores(u, plan, Ok(identity)),
    ensures
        ({
            let (came, next) = after_answer(state, plan, namespace, Ok(identity), u);
            state.upsert_id(u.identity, namespace) matches Some(id) && next.by_id(id) matches Some(t)
                && came == Ok::<_, Seq<char>>(ResolutionView::Resolved(t))
        }),
{
    upsert_succeeds(state, u.identity, namespace);
    let key = state.decision(u.identity, namespace).0;
    let outcome = state.decision(u.identity, namespace).1;
    let derived = hyphenated(target_id(namespace, u.identity.primary_designation));
    if outcome == UpsertOutcome::SkippedUserOverride {
        let row = existing_row(state.targets, u.identity, derived)->Some_0;
        if let Some(oid) = u.identity.simbad_oid {
            lemma_first_with_oid(state.targets, oid);
        }
        lemma_lookup_found::<TargetRow>(state.targets, derived);
        assert(state.targets.contains(row));
        let i = choose|i: int| 0 <= i < state.targets.len() && state.targets[i] == row;
        lemma_lookup_at::<TargetRow>(state.targets, i);
    } else {
        let row = TargetRowView::of(key, u.identity, u.resolved_at);
        lemma_put_lookup::<TargetRow>(state.targets, row, key);
    }
}

/// The target that the keys of a plan find is the one under its id.
proof fn lemma_first_of_is_stored(state: CacheView, keys: Seq<Seq<char>>, i: int)
    ensures
        state.first_of(keys, i) matches Ok(Some(t)) ==> state.by_id(t.id) == Some(t),
    decreases keys.len() - i,
{
    if 0 <= i < keys.len() {
        lemma_first_of_is_stored(state, keys, i + 1);
    }
}

/// Every name of a target that a query was resolved to leads back to that target,
/// whatever became of the answer: the next query with the normalized form of one
/// of its aliases, which no other target has, comes to the same target, and
/// neither asks the resolver nor writes. It holds of any store, sound or not.
pub proof fn names_of_a_resolved_target_are_not_asked<R: Resolver>(
    resolver: R,
    state: CacheView,
    config: ResolverConfig,
    query: Seq<char>,
    first: Result<Resolution, CacheError>,
    resolver_between: R,
    between: CacheView,
    t: CachedView,
    i: int,
    config_then: ResolverConfig,
    later: Seq<char>,
    second: Result<Resolution, CacheError>,
    resolver_after: R,
    after: CacheView,
)
    requires
        resolves(resolver, state, config, query, first, resolver_between, between),
        comes_to(first, Ok(ResolutionView::Resolved(t))),
        0 <= i < t.aliases.len(),
        t.aliases[i].normalized == normalized(later),
        normalized(later).len() > 0,
        plan_of(later) is Ok,
        forall|x: AliasRowView| #[trigger]
            between.aliases.contains(x) && x.alias.normalized == normalized(later)
                ==> x.target_id == hyphenated(t.id),
        resolves(
            resolver_between,
            between,
            config_then,
            later,
            second,
            resolver_after,
            after,
        ),
    ensures
        comes_to(second, Ok(ResolutionView::Resolved(t))),
        resolver_after == resolver_between,
        after == between,
{
    let plan = plan_of(query)->Ok_0;
    lemma_first_of_is_stored(state, plan.keys, 0);
    assert(between.by_id(t.id) == Some(t)) by {
        if state.first_of(plan.keys, 0) == Ok::<Option<CachedView>, Seq<char>>(None)
            && config.online_enabled {
            let (answer, u) = choose|answer: Result<IdentityView, ErrorView>, u: UpsertView|
                {
                    &&& #[trigger] stores(u, plan, answer)
                    &&& resolver.answers(plan.simbad_query, answer, resolver_between)
                    &&& comes_to(first, after_answer(state, plan, config.namespace, answer, u).0)
                    &&& between == after_answer(state, plan, config.namespace, answer, u).1
                };
            assert(answer is Ok);
        }
    }
    names_of_a_target_find_it(between, t, i);
    let keys = plan_of(later)->Ok_0.keys;
    assert(keys[0] == normalized(later));
}

/// A name that an answer was stored with is not asked again: the next query with
/// one of its normalized forms is answered from the store, with the target of the
/// answer where no other target has that form.
pub proof fn answers_are_asked_for_once<R: Resolver>(
    state: CacheView,
    plan: PlanView,
    identity: IdentityView,
    u: UpsertView,
    resolver: R,
    config: ResolverConfig,
    later: Seq<char>,
    r: Result<Resolution, CacheError>,
    resolver_after: R,
    state_after: CacheView,
)
    requires
        sound(state),
        stores(u, plan, Ok(identity)),
        u.alias_ids.no_duplicates(),
        state.decision(u.identity, config.namespace).1 != UpsertOutcome::SkippedUserOverride,
        plan_of(later) is Ok,
        normalized(later).len() > 0,
        has_normalized(stored_aliases(u.identity), normalized(later)),
        resolves(
            resolver,
            after_answer(state, plan, config.namespace, Ok(identity), u).1,
            config,
            later,
            r,
            resolver_after,
            state_after,
        ),
    ensures
        r matches Ok(Resolution::Resolved(t)) && has_normalized(t@.aliases, normalized(later)) && ((
        forall|x: AliasRowView| #[trigger]
            state.aliases.contains(x) && x.alias.normalized == normalized(later) ==> x.target_id
                == state.decision(u.identity, config.namespace).0) ==> state.upsert_id(
            u.identity,
            config.namespace,
        ) == Some(t@.id)),
        resolver_after == resolver,
        state_after == after_answer(state, plan, config.namespace, Ok(identity), u).1,
{
    let aliases = stored_aliases(u.identity);
    let j = choose|j: int|
        0 <= j < aliases.len() && (#[trigger] aliases[j]).normalized == normalized(later);
    upsert_succeeds(state, u.identity, config.namespace);
    stored_aliases_are_found(state, u, config.namespace, j);
    if forall|x: AliasRowView| #[trigger]
        state.aliases.contains(x) && x.alias.normalized == normalized(later) ==> x.target_id
            == state.decision(u.identity, config.namespace).0 {
        names_lead_to_one_target(state, u, config.namespace, j);
    }
    let keys = plan_of(later)->Ok_0.keys;
    assert(keys[0] == normalized(later));
}

/// The Caldwell designation of a query is bound to the object that it was
/// resolved to: it is one of the names, its form is stored, and the names that
/// were there stay.
pub proof fn caldwell_designation_is_bound(identity: IdentityView, c: Seq<char>)
    requires
        forms_computed(identity.aliases),
    ensures
        has_display(bound(identity, Some(c)).aliases, c),
        has_normalized(stored_aliases(bound(identity, Some(c))), normalized(c)),
        identity.aliases.is_prefix_of(bound(identity, Some(c)).aliases),
        bound(identity, Some(c)) == (IdentityView {
            aliases: bound(identity, Some(c)).aliases,
            ..identity
        }),
{
    let next = bound(identity, Some(c));
    stored_aliases_are_complete(next);
    if has_display(identity.aliases, c) {
        let i = choose|i: int|
            0 <= i < identity.aliases.len() && (#[trigger] identity.aliases[i]).alias == c;
        assert(next.aliases[i].normalized == normalized(c));
    } else {
        let n = identity.aliases.len() as int;
        assert(next.aliases[n].alias == c);
        assert(next.aliases[n].normalized == normalized(c));
    }
}

/// A Caldwell query that was answered is not asked again, however it is spelled:
/// the next query for the same object is answered from the store.
pub proof fn caldwell_queries_are_asked_for_once<R: Resolver>(
    state: CacheView,
    query: Seq<char>,
    identity: IdentityView,
    u: UpsertView,
    resolver: R,
    config: ResolverConfig,
    later: Seq<char>,
    r: Result<Resolution, CacheError>,
    resolver_after: R,
    state_after: CacheView,
)
    requires
        sound(state),
        caldwell_number(query) is Some,
        caldwell_number(later) == caldwell_number(query),
        plan_of(query) is Ok,
        stores(u, plan_of(query)->Ok_0, Ok(identity)),
        u.alias_ids.no_duplicates(),
        forms_computed(identity.aliases),
        state.decision(u.identity, config.namespace).1 != UpsertOutcome::SkippedUserOverride,
        plainly_spelled(later),
        resolves(
            resolver,
            after_answer(state, plan_of(query)->Ok_0, config.namespace, Ok(identity), u).1,
            config,
            later,
            r,
            resolver_after,
            state_after,
        ),
    ensures
        r is Ok && r->Ok_0 is Resolved,
        resolver_after == resolver,
{
    let plan = plan_of(query)->Ok_0;
    let c = plan.caldwell_alias->Some_0;
    caldwell_designation_is_bound(identity, c);
    spellings_normalize_alike(later);
    answers_are_asked_for_once(
        state,
        plan,
        identity,
        u,
        resolver,
        config,
        later,
        r,
        resolver_after,
        state_after,
    );
}

/// Fuzzy search has no say in resolving: configurations that differ only in it
/// resolve alike.
pub proof fn fuzzy_search_does_not_affect_resolving<R: Resolver>(
    resolver: R,
    state: CacheView,
    config: ResolverConfig,
    other: ResolverConfig,
    query: Seq<char>,
    r: Result<Resolution, CacheError>,
    resolver_after: R,
    state_after: CacheView,
)
    requires
        other.online_enabled == config.online_enabled,
        other.namespace == config.namespace,
        resolves(resolver, state, config, query, r, resolver_after, state_after),
    ensures
        resolves(resolver, state, other, query, r, resolver_after, state_after),
{
}

// ── Overriding ───────────────────────────────────────────────────────────────

/// An override is written to the target's own row, whatever the source of that
/// row: the target read back has its id and is the user's choice, the rows of all
/// others stay, and a sound store stays sound.
pub proof fn overrides_are_written(
    state: CacheView,
    target: u128,
    alias: Seq<char>,
    u: UpsertView,
)
    requires
        ascending::<TargetRow>(state.targets),
        state.by_id(target) is Some,
        u.identity == overridden(state.by_id(target)->Some_0, alias),
        u.drawn(),
    ensures
        ({
            let next = state.stored(hyphenated(target), u);
            &&& next.by_id(target) matches Some(t) && t.id == target && t.source
                == TargetSource::UserOverride
            &&& forall|k: Seq<char>|
                k != hyphenated(target) ==> #[trigger] lookup::<TargetRow>(next.targets, k)
                    == lookup::<TargetRow>(state.targets, k)
            &&& sound(state) ==> sound(next)
        }),
{
    let key = hyphenated(target);
    let next = state.stored(key, u);
    let row = TargetRowView::of(key, u.identity, u.resolved_at);
    lemma_put_lookup::<TargetRow>(state.targets, row, key);
    assert forall|k: Seq<char>| k != key implies #[trigger] lookup::<TargetRow>(next.targets, k)
        == lookup::<TargetRow>(state.targets, k) by {
        overwriting_touches_one_row(state, target, u, k);
    }
    if sound(state) {
        overwriting_keeps_sound(state, target, u);
    }
}

/// After an override the target read back is the user's choice and has the given
/// name, with everything else as it was: it has the form of every name that it
/// had, and the names themselves but for a stored common or user name of the
/// primary designation's form, which the designation replaces.
pub proof fn overrides_are_read_back(
    state: CacheView,
    target: u128,
    alias: Seq<char>,
    u: UpsertView,
)
    requires
        ascending::<TargetRow>(state.targets),
        ascending::<AliasRow>(state.aliases),
        state.by_id(target) is Some,
        u.identity == overridden(state.by_id(target)->Some_0, alias),
        u.drawn(),
        u.alias_ids.no_duplicates(),
    ensures
        state.stored(hyphenated(target), u).by_id(target) matches Some(t) && ({
            let was = state.by_id(target)->Some_0;
            &&& t.id == target
            &&& t.identity() == (IdentityView {
                aliases: t.aliases,
                source: TargetSource::UserOverride,
                ..was.identity()
            })
            &&& forms_differ(t.aliases)
            &&& forall|i: int|
                0 <= i < was.aliases.len() ==> has_normalized(
                    t.aliases,
                    (#[trigger] was.aliases[i]).normalized,
                )
            &&& forms_differ(was.aliases) ==> forall|i: int|
                0 <= i < was.aliases.len() && ((#[trigger] was.aliases[i]).normalized
                    != normalized(was.primary_designation) || was.aliases[i].kind
                    == AliasKind::Designation) ==> t.aliases.contains(was.aliases[i])
            &&& forms_computed(was.aliases) && trimmed(alias).len() > 0 ==> has_normalized(
                t.aliases,
                normalized(alias),
            )
        }),
{
    written_identity_is_read_back(state, target, u);
    let was = state.by_id(target)->Some_0;
    let t = state.stored(hyphenated(target), u).by_id(target)->Some_0;
    let all = u.identity.aliases;
    lemma_same_aliases(t.aliases, stored_aliases(u.identity));
    assert forall|i: int| 0 <= i < was.aliases.len() implies has_normalized(
        t.aliases,
        (#[trigger] was.aliases[i]).normalized,
    ) by {
        assert(all[i] == was.aliases[i]);
    }
    if forms_differ(was.aliases) {
        assert forall|i: int|
            0 <= i < was.aliases.len() && ((#[trigger] was.aliases[i]).normalized != normalized(
                was.primary_designation,
            ) || was.aliases[i].kind == AliasKind::Designation) implies t.aliases.contains(
            was.aliases[i],
        ) by {
            assert(all[i] == was.aliases[i]);
            assert forall|k: int| 0 <= k < i implies (#[trigger] all[k]).normalized
                != all[i].normalized by {
                assert(all[k] == was.aliases[k]);
            }
            first_aliases_are_stored(u.identity, i);
        }
    }
    if forms_computed(was.aliases) && trimmed(alias).len() > 0 {
        if has_display(was.aliases, alias) {
            let i = choose|i: int|
                0 <= i < was.aliases.len() && (#[trigger] was.aliases[i]).alias == alias;
            assert(all[i].normalized == normalized(alias));
        } else {
            assert(all[all.len() - 1].normalized == normalized(alias));
        }
    }
}

/// An override survives every later upsert from another source that finds the row
/// of the target.
pub proof fn overrides_survive(
    state: CacheView,
    target: u128,
    alias: Seq<char>,
    u: UpsertView,
    later: UpsertView,
    namespace: u128,
)
    requires
        sound(state),
        state.by_id(target) is Some,
        u.identity == overridden(state.by_id(target)->Some_0, alias),
        u.drawn(),
        later.identity.source != TargetSource::UserOverride,
        state.decision(later.identity, namespace).0 == hyphenated(target),
    ensures
        state.stored(hyphenated(target), u).upserted(later, namespace) == state.stored(
            hyphenated(target),
            u,
        ),
{
    let key = hyphenated(target);
    let next = state.stored(key, u);
    let row = TargetRowView::of(key, u.identity, u.resolved_at);
    let derived = hyphenated(target_id(namespace, later.identity.primary_designation));
    lemma_lookup_found::<TargetRow>(state.targets, key);
    let was = lookup::<TargetRow>(state.targets, key)->Some_0;
    lemma_put_rows::<TargetRow>(state.targets, row);
    lemma_put_lookup::<TargetRow>(state.targets, row, derived);
    overwriting_keeps_sound(state, target, u);
    assert(next.targets.contains(row));
    if let Some(oid) = later.identity.simbad_oid {
        lemma_first_with_oid(state.targets, oid);
        lemma_first_with_oid(next.targets, oid);
        match first_with_oid(state.targets, oid) {
            Some(found) => {
                assert(found == was) by {
                    lemma_lookup_iff::<TargetRow>(state.targets, found);
                }
                let now = first_with_oid(next.targets, oid)->Some_0;
                assert(next.targets.contains(now));
            },
            None => {
                if let Some(now) = first_with_oid(next.targets, oid) {
                    assert(next.targets.contains(now));
                    if now != row {
                        assert(state.targets.contains(now));
                    } else {
                        assert(state.targets.contains(was));
                    }
                }
            },
        }
    }
}

// ── Fuzzy search ─────────────────────────────────────────────────────────────

proof fn lemma_best_alias(scores: Seq<Single>, min: Single, n: int)
    ensures
        best_alias(scores, min, n) matches Some((score, j)) ==> {
            &&& 0 <= j < n
            &&& j < scores.len()
            &&& score == scores[j]
            &&& score.at_least(min)
        },
    decreases n,
{
    if n > 0 {
        lemma_best_alias(scores, min, n - 1);
    }
}

/// Whether `x` is a fuzzy hit among `targets`.
pub open spec fn is_fuzzy_hit(
    x: HitView,
    hits: Seq<HitView>,
    targets: Seq<CachedView>,
    scores: Seq<Vec<Single>>,
    min: Single,
) -> bool {
    &&& x.rank == RANK_FUZZY
    &&& !has_target(hits, x.target.id)
    &&& exists|i: int, j: int|
        {
            &&& 0 <= i < targets.len()
            &&& 0 <= j < targets[i].aliases.len()
            &&& x.target == targets[i]
            &&& x.matched_alias == targets[i].aliases[j].alias
            &&& j < scores_at(scores, i).len()
            &&& #[trigger] scores_at(scores, i)[j].at_least(min)
        }
}

proof fn lemma_scored_targets(
    hits: Seq<HitView>,
    targets: Seq<CachedView>,
    scores: Seq<Vec<Single>>,
    min: Single,
    n: int,
)
    requires
        n <= targets.len(),
    ensures
        forall|x: ScoredView| #[trigger]
            scored_targets(hits, targets, scores, min, n).contains(x) ==> is_fuzzy_hit(
                x.hit,
                hits,
                targets,
                scores,
                min,
            ),
    decreases n,
{
    if n > 0 {
        lemma_scored_targets(hits, targets, scores, min, n - 1);
        let front = scored_targets(hits, targets, scores, min, n - 1);
        let target = targets[n - 1];
        let own = scores_at(scores, n - 1);
        lemma_best_alias(own, min, target.aliases.len() as int);
        if !has_target(hits, target.id) {
            if let Some((score, j)) = best_alias(own, min, target.aliases.len() as int) {
                let last = scored_targets(hits, targets, scores, min, n).last();
                assert(scores_at(scores, n - 1)[j].at_least(min));
                assert(is_fuzzy_hit(last.hit, hits, targets, scores, min));
                assert forall|x: ScoredView| #[trigger]
                    scored_targets(hits, targets, scores, min, n).contains(x) implies is_fuzzy_hit(
                    x.hit,
                    hits,
                    targets,
                    scores,
                    min,
                ) by {
                    vstd::seq_lib::lemma_seq_contains_after_push(front, last, x);
                }
            }
        }
    }
}

/// Each target gives one fuzzy hit at most.
proof fn lemma_scored_ids_differ(
    hits: Seq<HitView>,
    targets: Seq<CachedView>,
    scores: Seq<Vec<Single>>,
    min: Single,
    n: int,
)
    requires
        0 <= n <= targets.len(),
        ids_differ(targets),
    ensures
        ({
            let s = scored_targets(hits, targets, scores, min, n);
            &&& forall|k: int|
                0 <= k < s.len() ==> exists|i: int|
                    0 <= i < n && #[trigger] targets[i] == (#[trigger] s[k]).hit.target
            &&& forall|k: int, l: int|
                0 <= k < l < s.len() ==> (#[trigger] s[k]).hit.target.id != (
                #[trigger] s[l]).hit.target.id
        }),
    decreases n,
{
    if n > 0 {
        lemma_scored_ids_differ(hits, targets, scores, min, n - 1);
        let front = scored_targets(hits, targets, scores, min, n - 1);
        let s = scored_targets(hits, targets, scores, min, n);
        assert forall|k: int| 0 <= k < s.len() implies exists|i: int|
            0 <= i < n && #[trigger] targets[i] == (#[trigger] s[k]).hit.target by {
            if k < front.len() {
                assert(s[k] == front[k]);
                let i = choose|i: int|
                    0 <= i < n - 1 && #[trigger] targets[i] == front[k].hit.target;
                assert(targets[i] == s[k].hit.target);
            } else {
                assert(targets[n - 1] == s[k].hit.target);
            }
        }
        assert forall|k: int, l: int| 0 <= k < l < s.len() implies (#[trigger] s[k]).hit.target.id
            != (#[trigger] s[l]).hit.target.id by {
            assert(s[k] == front[k]);
            if l < front.len() {
                assert(s[l] == front[l]);
            } else {
                let i = choose|i: int|
                    0 <= i < n - 1 && #[trigger] targets[i] == front[k].hit.target;
                assert(targets[i].id != targets[n - 1].id);
            }
        }
    }
}

/// Filling up with fuzzy hits keeps the other hits in front, goes no further than
/// `limit`, and adds only targets that were no hits yet, each for an alias with a
/// score of at least `min`, and each once where the list has it once.
pub proof fn fuzzy_hits_fill_up(
    hits: Seq<HitView>,
    targets: Seq<CachedView>,
    scores: Seq<Vec<Single>>,
    min: Single,
    limit: int,
)
    ensures
        ({
            let all = filled(hits, targets, scores, min, limit);
            &&& hits.is_prefix_of(all)
            &&& all.len() <= limit || all == hits
            &&& forall|k: int|
                hits.len() <= k < all.len() ==> is_fuzzy_hit(
                    #[trigger] all[k],
                    hits,
                    targets,
                    scores,
                    min,
                )
            &&& ids_differ(targets) ==> forall|j: int, k: int|
                hits.len() <= j < k < all.len() ==> (#[trigger] all[j]).target.id != (
                #[trigger] all[k]).target.id
        }),
{
    if hits.len() < limit {
        let some = scored_targets(hits, targets, scores, min, targets.len() as int);
        let best = sorted::<Scored>(some);
        let room = limit - hits.len();
        let n = if room < best.len() {
            room
        } else {
            best.len() as int
        };
        let all = filled(hits, targets, scores, min, limit);
        lemma_scored_targets(hits, targets, scores, min, targets.len() as int);
        assert(hits_of(best, n).len() == n);
        assert forall|k: int| hits.len() <= k < all.len() implies is_fuzzy_hit(
            #[trigger] all[k],
            hits,
            targets,
            scores,
            min,
        ) by {
            let x = best[k - hits.len()];
            assert(all[k] == x.hit);
            assert(best.contains(x));
            lemma_sorted_contains::<Scored>(some, x);
        }
        if ids_differ(targets) {
            lemma_scored_ids_differ(hits, targets, scores, min, targets.len() as int);
            lemma_sorted::<Scored>(some);
            lemma_same_elements_differ(best, some, |x: ScoredView| x.hit.target.id);
            assert forall|j: int, k: int| hits.len() <= j < k < all.len() implies (
            #[trigger] all[j]).target.id != (#[trigger] all[k]).target.id by {
                assert(all[j] == best[j - hits.len()].hit);
                assert(all[k] == best[k - hits.len()].hit);
            }
        }
    }
}

proof fn lemma_hits_bounded(state: CacheView, list: Seq<BestView>, n: int)
    requires
        n >= 0,
    ensures
        state.hits(list, n) matches Ok(hits) ==> hits.len() <= n,
    decreases n,
{
    if n > 0 {
        lemma_hits_bounded(state, list, n - 1);
    }
}

/// A search of the facade begins with the hits of the store's own search and goes
/// no further than `limit`. Every hit behind those is a fuzzy one for a target
/// that is no hit before it, where the list of targets has no id twice. There is
/// none where fuzzy search is off, the query is blank or the first hits leave no
/// room.
pub proof fn search_is_filled_up(
    state: CacheView,
    config: ResolverConfig,
    query: Seq<char>,
    limit: int,
    scores: Seq<Vec<Single>>,
)
    requires
        limit >= 0,
        searched(state, config, query, limit, scores) is Ok,
    ensures
        ({
            let all = searched(state, config, query, limit, scores)->Ok_0;
            state.found(query, limit) matches Ok(base) && {
                &&& base.is_prefix_of(all)
                &&& all.len() <= limit
                &&& forall|k: int|
                    base.len() <= k < all.len() ==> (#[trigger] all[k]).rank == RANK_FUZZY
                        && !has_target(base, all[k].target.id)
                &&& (state.listed() matches Ok(targets) && ids_differ(targets)) ==> forall|
                    j: int,
                    k: int,
                |
                    0 <= j < k < all.len() && base.len() <= k ==> (#[trigger] all[j]).target.id != (
                    #[trigger] all[k]).target.id
                &&& config.fuzzy_min_score is None || normalized(query).len() == 0 || base.len()
                    >= limit ==> all == base
            }
        }),
{
    let base = state.found(query, limit)->Ok_0;
    let list = ranked(state.aliases, normalized(query));
    let n = if limit < list.len() {
        limit
    } else {
        list.len() as int
    };
    lemma_hits_bounded(state, list, n);
    if let Some(min) = config.fuzzy_min_score {
        if let Ok(targets) = state.listed() {
            fuzzy_hits_fill_up(base, targets, scores, min, limit);
            let all = searched(state, config, query, limit, scores)->Ok_0;
            assert forall|k: int| base.len() <= k < all.len() implies (#[trigger] all[k]).rank
                == RANK_FUZZY && !has_target(base, all[k].target.id) by {
                assert(is_fuzzy_hit(all[k], base, targets, scores, min));
            }
            if ids_differ(targets) {
                assert forall|j: int, k: int|
                    0 <= j < k < all.len() && base.len() <= k implies (
                #[trigger] all[j]).target.id != (#[trigger] all[k]).target.id by {
                    if j < base.len() {
                        assert(all[j] == base[j]);
                        assert(is_fuzzy_hit(all[k], base, targets, scores, min));
                    }
                }
            }
        }
    }
}

/// A search of the facade never fails where all keys and owners are ids, and shows
/// no target twice.
pub proof fn search_shows_each_target_once(
    state: CacheView,
    config: ResolverConfig,
    query: Seq<char>,
    limit: int,
    scores: Seq<Vec<Single>>,
)
    requires
        ascending::<TargetRow>(state.targets),
        canonical(state),
        limit >= 0,
    ensures
        searched(state, config, query, limit, scores) matches Ok(all) && forall|j: int, k: int|
            0 <= j < k < all.len() ==> (#[trigger] all[j]).target.id != (
            #[trigger] all[k]).target.id,
{
    search_is_ranked_and_bounded(state, query, limit);
    list_has_every_target(state);
    search_is_filled_up(state, config, query, limit, scores);
    let base = state.found(query, limit)->Ok_0;
    let all = searched(state, config, query, limit, scores)->Ok_0;
    assert forall|j: int, k: int| 0 <= j < k < all.len() implies (#[trigger] all[j]).target.id != (
    #[trigger] all[k]).target.id by {
        if k < base.len() {
            assert(all[j] == base[j] && all[k] == base[k]);
        }
    }
}

/// With a score of at least `min` for one of its aliases, a target is a hit,
/// unless the limit leaves no room for it.
pub proof fn fuzzy_hits_are_complete(
    hits: Seq<HitView>,
    targets: Seq<CachedView>,
    scores: Seq<Vec<Single>>,
    min: Single,
    limit: int,
    i: int,
    j: int,
)
    requires
        0 <= i < targets.len(),
        0 <= j < targets[i].aliases.len(),
        j < scores_at(scores, i).len(),
        scores_at(scores, i)[j].at_least(min),
        filled(hits, targets, scores, min, limit).len() < limit,
    ensures
        has_target(filled(hits, targets, scores, min, limit), targets[i].id),
{
    let all = filled(hits, targets, scores, min, limit);
    if has_target(hits, targets[i].id) {
        let k = choose|k: int|
            0 <= k < hits.len() && (#[trigger] hits[k]).target.id == targets[i].id;
        assert(all[k].target.id == targets[i].id);
    } else {
        let some = scored_targets(hits, targets, scores, min, targets.len() as int);
        let best = sorted::<Scored>(some);
        lemma_sorted::<Scored>(some);
        lemma_best_alias_is_there(scores_at(scores, i), min, targets[i].aliases.len() as int, j);
        lemma_scored_is_there(hits, targets, scores, min, targets.len() as int, i);
        let x = choose|x: ScoredView| #[trigger] some.contains(x) && x.hit.target == targets[i];
        lemma_sorted_contains::<Scored>(some, x);
        let k = choose|k: int| 0 <= k < best.len() && best[k] == x;
        assert(hits_of(best, best.len() as int).len() == best.len());
        assert(all[hits.len() + k] == x.hit);
    }
}

proof fn lemma_best_alias_is_there(scores: Seq<Single>, min: Single, n: int, j: int)
    requires
        0 <= j < n,
        j < scores.len(),
        scores[j].at_least(min),
    ensures
        best_alias(scores, min, n) is Some,
    decreases n,
{
    if j < n - 1 {
        lemma_best_alias_is_there(scores, min, n - 1, j);
    }
}

proof fn lemma_scored_is_there(
    hits: Seq<HitView>,
    targets: Seq<CachedView>,
    scores: Seq<Vec<Single>>,
    min: Single,
    n: int,
    i: int,
)
    requires
        0 <= i < n <= targets.len(),
        !has_target(hits, targets[i].id),
        best_alias(scores_at(scores, i), min, targets[i].aliases.len() as int) is Some,
    ensures
        exists|x: ScoredView| #[trigger]
            scored_targets(hits, targets, scores, min, n).contains(x) && x.hit.target == targets[i],
    decreases n,
{
    let all = scored_targets(hits, targets, scores, min, n);
    if i == n - 1 {
        assert(all.contains(all[all.len() - 1]));
    } else {
        lemma_scored_is_there(hits, targets, scores, min, n - 1, i);
        let front = scored_targets(hits, targets, scores, min, n - 1);
        let x = choose|x: ScoredView| #[trigger] front.contains(x) && x.hit.target == targets[i];
        let k = choose|k: int| 0 <= k < front.len() && front[k] == x;
        assert(all[k] == x);
        assert(all.contains(x));
    }
}

} // verus!
