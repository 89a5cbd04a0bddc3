//! What a query comes to, for every answer of the resolver and every store.

use vstd::prelude::*;

use crate::cache::state::{CacheView, UpsertView};
use crate::cache::store_laws::{targets_are_found_by_form, unknown_keys_give_nothing};
use crate::cache::{CacheError, CachedView, UpsertOutcome};
use crate::caldwell::{caldwell_number, designation_of};
use crate::config::ResolverConfig;
use crate::error::ErrorView;
use crate::identity::{hyphenated, id_of_text};
use crate::normalize::normalized;
use crate::number::decimal;
use crate::orchestrate::{
    after_answer, comes_to, overridden, plan_of, resolves, stores, PlanView, Resolution,
    ResolutionView, UnresolvedReason,
};
use crate::resolver::{latest, FakeView, Resolver};
use crate::text::trimmed;
use crate::text_laws::{all_white, trimming_takes_the_outer_space};
use crate::types::{AliasKind, AliasView, IdentityView, TargetSource};

verus! {

// ── Asking ───────────────────────────────────────────────────────────────────

/// No alias of the store has the normalized form of `name`.
pub open spec fn is_unknown(state: CacheView, name: Seq<char>) -> bool {
    forall|i: int|
        0 <= i < state.aliases.len() ==> (#[trigger] state.aliases[i]).alias.normalized
            != normalized(name)
}

/// What an error of the resolver means for a query: one that may pass leaves it
/// open, an ambiguous name is called so, and all else is unknown.
pub open spec fn meaning_of(e: ErrorView) -> UnresolvedReason {
    match e {
        ErrorView::Network(_) => UnresolvedReason::Offline,
        ErrorView::Timeout(_) => UnresolvedReason::Offline,
        ErrorView::Disabled => UnresolvedReason::Offline,
        ErrorView::Ambiguous { .. } => UnresolvedReason::Ambiguous,
        ErrorView::NotFound(_) => UnresolvedReason::Unknown,
        ErrorView::Parse(_) => UnresolvedReason::Unknown,
    }
}

/// What becomes of an answer. An error is told and nothing is stored. An identity is
/// stored as it is, with `name` as one more designation where it is given and not
/// there yet, unless what is stored has precedence; the query comes to the target
/// that is then stored under its id.
pub open spec fn answer_is_kept(
    state: CacheView,
    namespace: u128,
    query: Seq<char>,
    name: Option<Seq<char>>,
    answer: Result<IdentityView, ErrorView>,
    u: UpsertView,
    r: Result<Resolution, CacheError>,
    state_after: CacheView,
) -> bool {
    match answer {
        Err(e) => {
            &&& r matches Ok(res) && res@ == (ResolutionView::Unresolved {
                query,
                reason: meaning_of(e),
            })
            &&& state_after == state
        },
        Ok(identity) => {
            &&& u.identity == (IdentityView { aliases: u.identity.aliases, ..identity })
            &&& u.drawn()
            &&& name is None ==> u.identity.aliases == identity.aliases
            &&& name matches Some(c) ==> u.identity.aliases == if exists|k: int|
                0 <= k < identity.aliases.len() && (#[trigger] identity.aliases[k]).alias == c {
                identity.aliases
            } else {
                identity.aliases.push(
                    AliasView { alias: c, normalized: normalized(c), kind: AliasKind::Designation },
                )
            }
            &&& match id_of_text(state.decision(u.identity, namespace).0) {
                None => state_after == state && r is Err,
                Some(id) => {
                    &&& state_after == if state.decision(u.identity, namespace).1
                        == UpsertOutcome::SkippedUserOverride {
                        state
                    } else {
                        state.stored(state.decision(u.identity, namespace).0, u)
                    }
                    &&& r matches Ok(res) && res@ == match state_after.by_id(id) {
                        Some(t) => ResolutionView::Resolved(t),
                        None => ResolutionView::Unresolved {
                            query,
                            reason: UnresolvedReason::Unknown,
                        },
                    }
                },
            }
        },
    }
}

/// Keys that no alias has give nothing.
proof fn lemma_unknown_keys(state: CacheView, keys: Seq<Seq<char>>, i: int)
    requires
        forall|k: int, j: int|
            0 <= k < keys.len() && 0 <= j < state.aliases.len() ==> (
            #[trigger] state.aliases[j]).alias.normalized != #[trigger] keys[k],
    ensures
        state.first_of(keys, i) == Ok::<Option<CachedView>, Seq<char>>(None),
    decreases keys.len() - i,
{
    if 0 <= i < keys.len() {
        assert forall|j: int| 0 <= j < state.aliases.len() implies (
        #[trigger] state.aliases[j]).alias.normalized != keys[i] by {}
        unknown_keys_give_nothing(state, 0, keys[i]);
        lemma_unknown_keys(state, keys, i + 1);
    }
}

proof fn lemma_answer<R: Resolver>(
    resolver: R,
    state: CacheView,
    config: ResolverConfig,
    query: Seq<char>,
    plan: PlanView,
    r: Result<Resolution, CacheError>,
    resolver_after: R,
    state_after: CacheView,
)
    requires
        resolves(resolver, state, config, query, r, resolver_after, state_after),
        plan_of(query) == Ok::<_, ResolutionView>(plan),
        plan.query == query,
        state.first_of(plan.keys, 0) == Ok::<Option<CachedView>, Seq<char>>(None),
        config.online_enabled,
    ensures
        exists|answer: Result<IdentityView, ErrorView>, u: UpsertView|
            resolver.answers(plan.simbad_query, answer, resolver_after)
                && #[trigger] answer_is_kept(
                state,
                config.namespace,
                query,
                plan.caldwell_alias,
                answer,
                u,
                r,
                state_after,
            ),
{
    let (answer, u) = choose|answer: Result<IdentityView, ErrorView>, u: UpsertView|
        {
            &&& #[trigger] stores(u, plan, answer)
            &&& resolver.answers(plan.simbad_query, answer, resolver_after)
            &&& comes_to(r, after_answer(state, plan, config.namespace, answer, u).0)
            &&& state_after == after_answer(state, plan, config.namespace, answer, u).1
        };
    assert(answer_is_kept(
        state,
        config.namespace,
        query,
        plan.caldwell_alias,
        answer,
        u,
        r,
        state_after,
    ));
}

/// A name that the store does not know is put to the resolver as it stands, and
/// what becomes of the query is what becomes of the answer.
pub proof fn unknown_names_are_asked<R: Resolver>(
    resolver: R,
    state: CacheView,
    config: ResolverConfig,
    query: Seq<char>,
    r: Result<Resolution, CacheError>,
    resolver_after: R,
    state_after: CacheView,
)
    requires
        resolves(resolver, state, config, query, r, resolver_after, state_after),
        caldwell_number(query) is None,
        is_unknown(state, query),
        config.online_enabled,
    ensures
        exists|answer: Result<IdentityView, ErrorView>, u: UpsertView|
            resolver.answers(query, answer, resolver_after) && #[trigger] answer_is_kept(
                state,
                config.namespace,
                query,
                None,
                answer,
                u,
                r,
                state_after,
            ),
{
    let plan = plan_of(query)->Ok_0;
    lemma_unknown_keys(state, plan.keys, 0);
    lemma_answer(resolver, state, config, query, plan, r, resolver_after, state_after);
}

/// A number of the Caldwell catalogue that the store does not know, neither by the
/// query nor by its designation, is put to the resolver by its designation, and the
/// answer is stored with the catalogue's own name.
pub proof fn unknown_numbers_are_asked_by_designation<R: Resolver>(
    resolver: R,
    state: CacheView,
    config: ResolverConfig,
    query: Seq<char>,
    n: u32,
    d: Seq<char>,
    r: Result<Resolution, CacheError>,
    resolver_after: R,
    state_after: CacheView,
)
    requires
        resolves(resolver, state, config, query, r, resolver_after, state_after),
        caldwell_number(query) == Some(n),
        designation_of(n) == Some(d),
        is_unknown(state, query),
        is_unknown(state, d),
        config.online_enabled,
    ensures
        exists|answer: Result<IdentityView, ErrorView>, u: UpsertView|
            resolver.answers(d, answer, resolver_after) && #[trigger] answer_is_kept(
                state,
                config.namespace,
                query,
                Some("C "@ + decimal(n as nat)),
                answer,
                u,
                r,
                state_after,
            ),
{
    let plan = plan_of(query)->Ok_0;
    lemma_unknown_keys(state, plan.keys, 0);
    lemma_answer(resolver, state, config, query, plan, r, resolver_after, state_after);
}

/// Without the network an unknown name stays open, for want of the network; nothing
/// is asked and nothing is stored.
pub proof fn unknown_names_stay_open_offline<R: Resolver>(
    resolver: R,
    state: CacheView,
    config: ResolverConfig,
    query: Seq<char>,
    r: Result<Resolution, CacheError>,
    resolver_after: R,
    state_after: CacheView,
)
    requires
        resolves(resolver, state, config, query, r, resolver_after, state_after),
        is_unknown(state, query),
        caldwell_number(query) matches Some(n) ==> (designation_of(n) matches Some(d)
            && is_unknown(state, d)),
        !config.online_enabled,
    ensures
        r matches Ok(res) && res@ == (ResolutionView::Unresolved {
            query,
            reason: UnresolvedReason::Offline,
        }),
        resolver_after == resolver,
        state_after == state,
{
    let plan = plan_of(query)->Ok_0;
    lemma_unknown_keys(state, plan.keys, 0);
}

/// The one number of the catalogue without a designation is unknown at once, online
/// or not: nothing is asked and nothing is stored.
pub proof fn numbers_without_designation_are_unknown<R: Resolver>(
    resolver: R,
    state: CacheView,
    config: ResolverConfig,
    query: Seq<char>,
    r: Result<Resolution, CacheError>,
    resolver_after: R,
    state_after: CacheView,
)
    requires
        resolves(resolver, state, config, query, r, resolver_after, state_after),
        caldwell_number(query) == Some(99u32),
    ensures
        r matches Ok(res) && res@ == (ResolutionView::Unresolved {
            query,
            reason: UnresolvedReason::Unknown,
        }),
        resolver_after == resolver,
        state_after == state,
{
}

/// A name that the store knows comes to the target of the first alias with its
/// form, online or not: nothing is asked and nothing is stored. So does a number of
/// the Caldwell catalogue that is known by its designation alone.
pub proof fn known_names_come_from_the_store<R: Resolver>(
    resolver: R,
    state: CacheView,
    config: ResolverConfig,
    query: Seq<char>,
    name: Seq<char>,
    i: int,
    t: CachedView,
    r: Result<Resolution, CacheError>,
    resolver_after: R,
    state_after: CacheView,
)
    requires
        resolves(resolver, state, config, query, r, resolver_after, state_after),
        caldwell_number(query) != Some(99u32),
        name == query || (is_unknown(state, query) && (caldwell_number(query) matches Some(n)
            && designation_of(n) == Some(name))),
        normalized(name).len() > 0,
        0 <= i < state.aliases.len(),
        state.aliases[i].alias.normalized == normalized(name),
        forall|j: int|
            0 <= j < i ==> (#[trigger] state.aliases[j]).alias.normalized != normalized(name),
        state.aliases[i].target_id == hyphenated(t.id),
        state.by_id(t.id) == Some(t),
    ensures
        r matches Ok(res) && res@ == ResolutionView::Resolved(t),
        resolver_after == resolver,
        state_after == state,
{
    targets_are_found_by_form(state, normalized(name), i, t.id);
    if let Some(n) = caldwell_number(query) {
        crate::caldwell_laws::nothing_else_is_recognized(query);
        crate::caldwell_laws::the_table_is_complete(n);
    }
    let plan = plan_of(query)->Ok_0;
    if name == query {
        assert(plan.keys[0] == normalized(query));
        assert(state.first_of(plan.keys, 0) == Ok::<_, Seq<char>>(Some(t)));
    } else if normalized(query).len() == 0 {
        assert(plan.keys[0] == normalized(name));
        assert(state.first_of(plan.keys, 0) == Ok::<_, Seq<char>>(Some(t)));
    } else {
        assert(plan.keys[0] == normalized(query));
        assert(plan.keys[1] == normalized(name));
        unknown_keys_give_nothing(state, 0, normalized(query));
        assert(state.first_of(plan.keys, 1) == Ok::<_, Seq<char>>(Some(t)));
        assert(state.first_of(plan.keys, 0) == state.first_of(plan.keys, 1));
    }
}

// ── Overriding ───────────────────────────────────────────────────────────────

/// An override keeps everything of the target but its source, and adds the given
/// name as the user wrote it, where it is not blank and no name of the target is
/// written like that.
pub proof fn overrides_add_the_given_name(target: CachedView, alias: Seq<char>)
    ensures
        overridden(target, alias) == (IdentityView {
            source: TargetSource::UserOverride,
            aliases: overridden(target, alias).aliases,
            ..target.identity()
        }),
        all_white(alias) ==> overridden(target, alias).aliases == target.aliases,
        (exists|k: int| 0 <= k < target.aliases.len() && (#[trigger] target.aliases[k]).alias
            == alias) ==> overridden(target, alias).aliases == target.aliases,
        !all_white(alias) && (forall|k: int|
            0 <= k < target.aliases.len() ==> (#[trigger] target.aliases[k]).alias != alias)
            ==> overridden(target, alias).aliases == target.aliases.push(
            AliasView { alias, normalized: normalized(alias), kind: AliasKind::User },
        ),
{
    let none = Seq::<char>::empty();
    if all_white(alias) {
        trimming_takes_the_outer_space(alias, none, none);
        assert(alias + none + none =~= alias);
    } else if trimmed(alias).len() == 0 {
        let frame = crate::text_laws::trimmed_texts_are_framed_by_space(alias);
        assert forall|i: int| 0 <= i < alias.len() implies crate::text::white_space(
            #[trigger] alias[i],
        ) by {
            if i < frame.0.len() {
                assert(alias[i] == frame.0[i]);
            } else {
                assert(alias[i] == frame.1[i - frame.0.len()]);
            }
        }
    }
}

// ── Canned answers ───────────────────────────────────────────────────────────

/// The last answer registered under a key counts, and has no say in other keys.
pub proof fn the_last_registration_counts<V>(
    s: Seq<(Seq<char>, V)>,
    key: Seq<char>,
    v: V,
    other: Seq<char>,
)
    ensures
        latest(s.push((key, v)), key) == Some(v),
        other != key ==> latest(s.push((key, v)), other) == latest(s, other),
        latest(Seq::<(Seq<char>, V)>::empty(), key) is None,
{
    assert(s.push((key, v)).drop_last() =~= s);
}

/// A canned error goes before a canned identity, whichever was registered last, and
/// both go before the default error; without any of them the query is not found.
/// Queries of one normalized form are answered alike.
pub proof fn canned_answers_have_their_precedence(fake: FakeView, query: Seq<char>)
    ensures
        latest(fake.errors, normalized(query)) matches Some(e) ==> fake.answer(query) == Err::<
            IdentityView,
            ErrorView,
        >(e),
        latest(fake.errors, normalized(query)) is None ==> (latest(
            fake.responses,
            normalized(query),
        ) matches Some(identity) ==> fake.answer(query) == Ok::<IdentityView, ErrorView>(identity)),
        latest(fake.errors, normalized(query)) is None && latest(
            fake.responses,
            normalized(query),
        ) is None ==> fake.answer(query) == Err::<IdentityView, ErrorView>(
            match fake.default_error {
                Some(e) => e,
                None => ErrorView::NotFound(query),
            },
        ),
        fake.asked() == (FakeView { call_count: fake.asked().call_count, ..fake }),
        fake.call_count < usize::MAX ==> fake.asked().call_count == fake.call_count + 1,
{
}

} // verus!
