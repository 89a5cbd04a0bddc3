//! What calls change: the laws of the other modules, said of the functions that
//! write.

use vstd::prelude::*;

use crate::batch::{drain, drained, drains_count_every_item, DrainError, DrainState, DrainSummary};
use crate::cache::laws::{sound, upsert_succeeds};
use crate::cache::queue::{waiting, PendingRow, PendingRowView, QueueTables};
use crate::cache::queue_laws::{enqueued_item_waits, outcomes_are_read_back};
use crate::cache::state::{AliasRow, TargetRow, TargetRowView, UpsertView};
use crate::cache::store_laws::{
    new_user_aliases_are_taken, other_user_aliases_change_nothing, outcome_over, pending_items_wait,
    targets_are_read_with_their_aliases, upserts_go_to_the_row_of_their_object_id,
    user_aliases_are_removed_by_key,
};
use crate::cache::tables::CacheTables;
use crate::cache::{CacheError, CachedView, UpsertOutcome};
use crate::caldwell::caldwell_number;
use crate::config::ResolverConfig;
use crate::error::{ErrorView, ResolveError};
use crate::identity::{hyphenated, id_text_round_trips, is_id_text};
use crate::normalize::normalized;
use crate::orchestrate::{resolve_core, Resolution, ResolutionView, UnresolvedReason};
use crate::resolve_laws::{
    answer_is_kept, is_unknown, known_names_come_from_the_store, unknown_names_are_asked,
    unknown_names_stay_open_offline,
};
use crate::resolver::Resolver;
use crate::table::{has_key, lemma_lookup_at, lemma_lookup_found, lemma_put_lookup, lemma_put_rows};
use crate::tap::ResponseBuffer;
use crate::types::{AliasKind, AliasView, IdentityView, ResolvedIdentity};

verus! {

// ── Receiving ────────────────────────────────────────────────────────────────

/// A part of an answer is taken in whole, behind what is there, while the whole stays
/// within eight mebibytes; else it is refused and nothing changes.
pub proof fn parts_are_taken_in(
    buffer: &mut ResponseBuffer,
    chunk: &[u8],
    r: Result<(), ResolveError>,
)
    requires
        old(buffer)@.len() <= 8 * 1024 * 1024,
        call_ensures(ResponseBuffer::extend, (buffer, chunk), r),
    ensures
        old(buffer)@.len() + chunk@.len() <= 8 * 1024 * 1024 ==> r is Ok,
        r is Ok ==> final(buffer)@ == old(buffer)@ + chunk@,
        r is Err ==> final(buffer)@ == old(buffer)@,
{
}

// ── The queue ────────────────────────────────────────────────────────────────

/// A new item waits with its query as it was given, no attempts and no target; every
/// other item stays.
pub proof fn new_items_are_queued(queue: &mut QueueTables, id: &str, query: &str, other: Seq<char>)
    requires
        old(queue).wf(),
        call_ensures(QueueTables::enqueue, (queue, id, query), ()),
        old(queue)@.row(id@) is None,
    ensures
        final(queue)@.row(id@) matches Some(row) && row.query == query@ && row.waits()
            && row.attempts == 0 && row.target_id is None,
        other != id@ ==> final(queue)@.row(other) == old(queue)@.row(other),
{
    enqueued_item_waits(old(queue)@, id@, query@, other);
}

/// A resolved item is read back with its target, and no longer waits.
pub proof fn resolved_items_have_their_target(queue: &mut QueueTables, id: &str, target: u128)
    requires
        old(queue).wf(),
        call_ensures(QueueTables::mark_resolved, (queue, id, target), ()),
        old(queue)@.row(id@) is Some,
    ensures
        final(queue)@.row(id@) matches Some(row) && !row.waits() && (row.item() matches Ok(item)
            && item.target_id == Some(target) && item.query == old(queue)@.row(id@)->Some_0.query),
{
    let row = PendingRowView {
        state: "resolved"@,
        target_id: Some(hyphenated(target)),
        ..old(queue)@.row(id@)->Some_0
    };
    lemma_lookup_found::<PendingRow>(old(queue)@.pending, id@);
    lemma_put_lookup::<PendingRow>(old(queue)@.pending, row, id@);
    outcomes_are_read_back(old(queue)@, id@, target);
}

/// An item that is put back waits again, with the attempts that it had.
pub proof fn released_items_wait_again(queue: &mut QueueTables, id: &str)
    requires
        old(queue).wf(),
        call_ensures(QueueTables::release, (queue, id), ()),
        old(queue)@.row(id@) is Some,
    ensures
        final(queue)@.row(id@) matches Some(row) && row.waits() && row.attempts
            == old(queue)@.row(id@)->Some_0.attempts,
{
    let row = PendingRowView {
        state: "pending"@,
        ..old(queue)@.row(id@)->Some_0
    };
    lemma_lookup_found::<PendingRow>(old(queue)@.pending, id@);
    lemma_put_lookup::<PendingRow>(old(queue)@.pending, row, id@);
}

// ── The store ────────────────────────────────────────────────────────────────

/// An upsert that writes gives the id of a target that then has the fields of the
/// identity; one that does not write changes nothing.
pub proof fn upserted_identities_are_stored(
    cache: &mut CacheTables,
    identity: ResolvedIdentity,
    namespace: u128,
    r: Result<(u128, UpsertOutcome), CacheError>,
)
    requires
        old(cache).wf(),
        call_ensures(CacheTables::upsert, (cache, &identity, namespace), r),
        sound(old(cache)@),
    ensures
        r matches Ok((id, outcome)) && (outcome == UpsertOutcome::SkippedUserOverride
            ==> final(cache)@ == old(cache)@) && (outcome != UpsertOutcome::SkippedUserOverride
            ==> (final(cache)@.by_id(id) matches Some(t) && {
            &&& t.id == id
            &&& t.simbad_oid == identity@.simbad_oid
            &&& t.primary_designation == identity@.primary_designation
            &&& t.common_name == identity@.common_name
            &&& t.object_type == identity@.object_type
            &&& t.otype_raw == identity@.otype_raw
            &&& t.ra_deg == identity@.ra_deg
            &&& t.dec_deg == identity@.dec_deg
            &&& t.v_mag == identity@.v_mag
            &&& t.galdim_majaxis_arcmin == identity@.galdim_majaxis_arcmin
            &&& t.galdim_minaxis_arcmin == identity@.galdim_minaxis_arcmin
            &&& t.galdim_angle_deg == identity@.galdim_angle_deg
            &&& t.source == identity@.source
        })),
{
    let state = old(cache)@;
    upsert_succeeds(state, identity@, namespace);
    let (id, outcome) = r->Ok_0;
    let u = choose|u: UpsertView|
        u.identity == identity@ && u.drawn() && final(cache)@ == #[trigger] state.upserted(
            u,
            namespace,
        );
    if outcome != UpsertOutcome::SkippedUserOverride {
        let key = hyphenated(id);
        let row = TargetRowView::of(key, identity@, u.resolved_at);
        lemma_put_rows::<TargetRow>(state.targets, row);
        assert(final(cache)@.targets.contains(row));
        targets_are_read_with_their_aliases(final(cache)@, id, row);
    }
}

/// An upsert of an object id that is stored goes to its row, and says whether it was
/// written by the standing of the two sources.
pub proof fn upserts_of_a_stored_object_go_to_its_row(
    cache: &mut CacheTables,
    identity: ResolvedIdentity,
    namespace: u128,
    oid: i64,
    i: int,
    id: u128,
    r: Result<(u128, UpsertOutcome), CacheError>,
)
    requires
        old(cache).wf(),
        call_ensures(CacheTables::upsert, (cache, &identity, namespace), r),
        identity@.simbad_oid == Some(oid),
        0 <= i < old(cache)@.targets.len(),
        old(cache)@.targets[i].simbad_oid == Some(oid),
        forall|j: int| 0 <= j < i ==> (#[trigger] old(cache)@.targets[j]).simbad_oid != Some(oid),
        old(cache)@.targets[i].id == hyphenated(id),
    ensures
        r == Ok::<(u128, UpsertOutcome), CacheError>(
            (id, outcome_over(identity@.source, old(cache)@.targets[i].source)),
        ),
{
    upserts_go_to_the_row_of_their_object_id(old(cache)@, identity@, namespace, oid, i);
    id_text_round_trips(id);
}

/// A user alias of a form that the target has not is added, and is then one of the
/// target's names as the user wrote it.
pub proof fn user_aliases_are_added(
    cache: &mut CacheTables,
    target: u128,
    alias: &str,
    r: bool,
)
    requires
        old(cache).wf(),
        call_ensures(CacheTables::add_user_alias, (cache, target, alias), r),
        old(cache)@.by_id(target) is Some,
        normalized(alias@).len() > 0,
        forall|i: int|
            0 <= i < old(cache)@.aliases.len() && (#[trigger] old(cache)@.aliases[i]).target_id
                == hyphenated(target) ==> old(cache)@.aliases[i].alias.normalized != normalized(
                alias@,
            ),
    ensures
        r,
        final(cache)@.by_id(target) matches Some(t) && t.aliases.contains(
            AliasView { alias: alias@, normalized: normalized(alias@), kind: AliasKind::User },
        ),
{
    let state = old(cache)@;
    let key = choose|key: Seq<char>|
        is_id_text(key) && final(cache)@ == #[trigger] state.with_user_alias(
            target,
            alias@,
            key,
        );
    new_user_aliases_are_taken(state, target, alias@, key);
    assert(state.takes_alias(target, alias@));
}

/// A user alias that is blank, or whose form the target has, is not added.
pub proof fn known_user_aliases_are_not_added(
    cache: &mut CacheTables,
    target: u128,
    alias: &str,
    i: int,
    r: bool,
)
    requires
        old(cache).wf(),
        call_ensures(CacheTables::add_user_alias, (cache, target, alias), r),
        normalized(alias@).len() == 0 || (0 <= i < old(cache)@.aliases.len()
            && old(cache)@.aliases[i].target_id == hyphenated(target)
            && old(cache)@.aliases[i].alias.normalized == normalized(alias@)),
    ensures
        !r,
        final(cache)@ == old(cache)@,
{
    let state = old(cache)@;
    let key = choose|key: Seq<char>|
        is_id_text(key) && final(cache)@ == #[trigger] state.with_user_alias(
            target,
            alias@,
            key,
        );
    other_user_aliases_change_nothing(state, target, alias@, key, i);
}

/// A user alias is removed by the key of its row, and nothing but a user alias is.
pub proof fn user_aliases_are_removed(cache: &mut CacheTables, key: &str, i: int, r: bool)
    requires
        old(cache).wf(),
        call_ensures(CacheTables::remove_user_alias, (cache, key), r),
        0 <= i < old(cache)@.aliases.len(),
        old(cache)@.aliases[i].alias_id == key@,
    ensures
        r <==> old(cache)@.aliases[i].alias.kind == AliasKind::User,
        r ==> !has_key::<AliasRow>(final(cache)@.aliases, key@),
        !r ==> final(cache)@ == old(cache)@,
        final(cache)@.targets == old(cache)@.targets,
{
    user_aliases_are_removed_by_key(old(cache)@, i, key@);
    lemma_lookup_at::<AliasRow>(old(cache)@.aliases, i);
}

// ── Resolving ────────────────────────────────────────────────────────────────

/// A name that the store knows comes to its target, online or not: the resolver is
/// not asked and the store does not change.
pub proof fn known_names_are_resolved<R: Resolver>(
    resolver: &mut R,
    cache: &mut CacheTables,
    config: ResolverConfig,
    query: &str,
    i: int,
    t: CachedView,
    r: Result<Resolution, CacheError>,
)
    requires
        old(cache).wf(),
        call_ensures(resolve_core::<R>, (resolver, cache, &config, query), r),
        caldwell_number(query@) != Some(99u32),
        normalized(query@).len() > 0,
        0 <= i < old(cache)@.aliases.len(),
        old(cache)@.aliases[i].alias.normalized == normalized(query@),
        forall|j: int|
            0 <= j < i ==> (#[trigger] old(cache)@.aliases[j]).alias.normalized != normalized(
                query@,
            ),
        old(cache)@.aliases[i].target_id == hyphenated(t.id),
        old(cache)@.by_id(t.id) == Some(t),
    ensures
        r matches Ok(res) && res@ == ResolutionView::Resolved(t),
        *final(resolver) == *old(resolver),
        final(cache)@ == old(cache)@,
{
    known_names_come_from_the_store(
        *old(resolver),
        old(cache)@,
        config,
        query@,
        query@,
        i,
        t,
        r,
        *final(resolver),
        final(cache)@,
    );
}

/// A name that the store does not know is put to the resolver as it stands, online,
/// and the answer is kept; offline it stays open.
pub proof fn unknown_names_are_resolved<R: Resolver>(
    resolver: &mut R,
    cache: &mut CacheTables,
    config: ResolverConfig,
    query: &str,
    r: Result<Resolution, CacheError>,
)
    requires
        old(cache).wf(),
        call_ensures(resolve_core::<R>, (resolver, cache, &config, query), r),
        caldwell_number(query@) is None,
        is_unknown(old(cache)@, query@),
    ensures
        config.online_enabled ==> exists|answer: Result<IdentityView, ErrorView>, u: UpsertView|
            old(resolver).answers(query@, answer, *final(resolver)) && #[trigger] answer_is_kept(
                old(cache)@,
                config.namespace,
                query@,
                None,
                answer,
                u,
                r,
                final(cache)@,
            ),
        !config.online_enabled ==> (r matches Ok(res) && res@ == (ResolutionView::Unresolved {
            query: query@,
            reason: UnresolvedReason::Offline,
        })) && final(cache)@ == old(cache)@ && *final(resolver) == *old(resolver),
{
    if config.online_enabled {
        unknown_names_are_asked(
            *old(resolver),
            old(cache)@,
            config,
            query@,
            r,
            *final(resolver),
            final(cache)@,
        );
    } else {
        unknown_names_stay_open_offline(
            *old(resolver),
            old(cache)@,
            config,
            query@,
            r,
            *final(resolver),
            final(cache)@,
        );
    }
}

/// A drain that comes to its end counts every item that waited.
pub proof fn drains_count_what_waited<R: Resolver>(
    resolver: &mut R,
    cache: &mut CacheTables,
    queue: &mut QueueTables,
    config: ResolverConfig,
    r: Result<DrainSummary, DrainError>,
)
    requires
        old(cache).wf(),
        old(queue).wf(),
        call_ensures(drain::<R>, (resolver, cache, queue, &config), r),
        waiting(old(queue)@.pending).len() <= usize::MAX,
    ensures
        r matches Ok(summary) ==> summary.resolved + summary.unresolved + summary.still_pending
            == old(queue)@.pending.filter(|x: PendingRowView| x.state == "pending"@).len(),
{
    if let Ok(summary) = r {
        let start = DrainState {
            resolver: *old(resolver),
            store: old(cache)@,
            queue: old(queue)@,
            summary: DrainSummary { resolved: 0, unresolved: 0, still_pending: 0 },
        };
        let last = choose|last: DrainSummary|
            #[trigger] drained(
                config,
                start,
                r,
                DrainState {
                    resolver: *final(resolver),
                    store: final(cache)@,
                    queue: final(queue)@,
                    summary: last,
                },
            );
        drains_count_every_item(
            config,
            start,
            summary,
            DrainState {
                resolver: *final(resolver),
                store: final(cache)@,
                queue: final(queue)@,
                summary: last,
            },
        );
        pending_items_wait(old(queue)@.pending);
    }
}

} // verus!
