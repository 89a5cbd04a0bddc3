//! What a store gives back of its rows, and which row an upsert goes to.

use vstd::prelude::*;
use vstd::utf8::*;

use crate::cache::laws::stored_aliases_are_complete;
use crate::cache::queue::{waiting, PendingRowView, RowFault};
use crate::cache::reads::{aliases_of, first_with_form};
use crate::cache::state::{
    distinct_forms, first_with_oid, not_owned_by, stored_aliases, upserts, with_primary, AliasRow,
    AliasRowView, CacheView, TargetRow, TargetRowView, UpsertView,
};
use crate::cache::{CachedTarget, CachedView, PendingState, PendingView, UpsertOutcome};
use crate::identity::{
    hyphenated, id_of_text, id_text_round_trips, named_id, namespace_of, target_id,
};
use crate::normalize::normalized;
use crate::order::{before, lemma_sorted, lemma_sorted_contains};
use crate::table::{
    ascending, has_key, keyed_at, lemma_lookup_at, lemma_put_lookup, lemma_put_rows, lookup,
    put_rows,
};
use crate::types::{
    first_designation, has_normalized, AliasKind, AliasView, IdentityView, ResolvedAlias,
    TargetSource,
};

verus! {

// ── Finding rows ─────────────────────────────────────────────────────────────

/// The row of an object id is the first in the table that has it.
pub proof fn the_first_row_of_an_object_id_counts(
    targets: Seq<TargetRowView>,
    oid: i64,
    i: int,
)
    requires
        0 <= i < targets.len(),
        targets[i].simbad_oid == Some(oid),
        forall|j: int| 0 <= j < i ==> (#[trigger] targets[j]).simbad_oid != Some(oid),
    ensures
        first_with_oid(targets, oid) == Some(targets[i]),
    decreases targets.len(),
{
    let front = targets.drop_last();
    if i < front.len() {
        the_first_row_of_an_object_id_counts(front, oid, i);
    } else {
        no_row_of_an_object_id(front, oid);
    }
}

/// An object id that no row has is found nowhere.
pub proof fn no_row_of_an_object_id(targets: Seq<TargetRowView>, oid: i64)
    requires
        forall|j: int| 0 <= j < targets.len() ==> (#[trigger] targets[j]).simbad_oid != Some(oid),
    ensures
        first_with_oid(targets, oid) is None,
    decreases targets.len(),
{
    if targets.len() > 0 {
        let front = targets.drop_last();
        assert forall|j: int| 0 <= j < front.len() implies (#[trigger] front[j]).simbad_oid
            != Some(oid) by {
            assert(front[j] == targets[j]);
        }
        no_row_of_an_object_id(front, oid);
    }
}

/// The row of a normalized form is the first in the table that has it.
pub proof fn the_first_row_of_a_form_counts(aliases: Seq<AliasRowView>, form: Seq<char>, i: int)
    requires
        0 <= i < aliases.len(),
        aliases[i].alias.normalized == form,
        forall|j: int| 0 <= j < i ==> (#[trigger] aliases[j]).alias.normalized != form,
    ensures
        first_with_form(aliases, form) == Some(aliases[i]),
    decreases aliases.len(),
{
    let front = aliases.drop_last();
    if i < front.len() {
        the_first_row_of_a_form_counts(front, form, i);
    } else {
        no_row_of_a_form(front, form);
    }
}

/// A form that no row has is found nowhere.
pub proof fn no_row_of_a_form(aliases: Seq<AliasRowView>, form: Seq<char>)
    requires
        forall|j: int|
            0 <= j < aliases.len() ==> (#[trigger] aliases[j]).alias.normalized != form,
    ensures
        first_with_form(aliases, form) is None,
    decreases aliases.len(),
{
    if aliases.len() > 0 {
        let front = aliases.drop_last();
        assert forall|j: int| 0 <= j < front.len() implies (#[trigger] front[j]).alias.normalized
            != form by {
            assert(front[j] == aliases[j]);
        }
        no_row_of_a_form(front, form);
    }
}

// ── Reading ──────────────────────────────────────────────────────────────────

/// The aliases of a target are those of the rows that it owns, all of them.
pub proof fn a_target_has_the_aliases_of_its_rows(s: Seq<AliasRowView>, target: Seq<char>)
    ensures
        aliases_of(s, target) == s.filter(
            |x: AliasRowView| x.target_id == target,
        ).map_values(|x: AliasRowView| x.alias),
    decreases s.len(),
{
    let owned = |x: AliasRowView| x.target_id == target;
    let alias = |x: AliasRowView| x.alias;
    reveal(Seq::filter);
    if s.len() > 0 {
        a_target_has_the_aliases_of_its_rows(s.drop_last(), target);
        let front = s.drop_last().filter(owned);
        if owned(s.last()) {
            assert(front.push(s.last()).map_values(alias) =~= front.map_values(alias).push(
                s.last().alias,
            ));
        }
    } else {
        assert(aliases_of(s, target) =~= s.filter(owned).map_values(alias));
    }
}

/// Giving up the aliases of a target leaves the rows of all others, in their order.
pub proof fn only_the_rows_of_a_target_are_given_up(s: Seq<AliasRowView>, target: Seq<char>)
    ensures
        not_owned_by(s, target) == s.filter(|x: AliasRowView| x.target_id != target),
    decreases s.len(),
{
    reveal(Seq::filter);
    if s.len() > 0 {
        only_the_rows_of_a_target_are_given_up(s.drop_last(), target);
    }
}

/// A target is read by its id with every field of its row and every alias of the
/// rows that it owns, and with no other alias, ordered by display form.
pub proof fn targets_are_read_with_their_aliases(state: CacheView, id: u128, row: TargetRowView)
    requires
        ascending::<TargetRow>(state.targets),
        state.targets.contains(row),
        row.id == hyphenated(id),
    ensures
        state.by_id(id) matches Some(t) && {
            &&& t.id == id
            &&& t.simbad_oid == row.simbad_oid
            &&& t.primary_designation == row.primary_designation
            &&& t.common_name == row.common_name
            &&& t.object_type == row.object_type
            &&& t.otype_raw == row.otype_raw
            &&& t.ra_deg == row.ra_deg
            &&& t.dec_deg == row.dec_deg
            &&& t.v_mag == row.v_mag
            &&& t.galdim_majaxis_arcmin == row.galdim_majaxis_arcmin
            &&& t.galdim_minaxis_arcmin == row.galdim_minaxis_arcmin
            &&& t.galdim_angle_deg == row.galdim_angle_deg
            &&& t.source == row.source
            &&& t.resolved_at == row.resolved_at
            &&& t.aliases.to_multiset() == state.aliases.filter(
                |x: AliasRowView| x.target_id == row.id,
            ).map_values(|x: AliasRowView| x.alias).to_multiset()
            &&& forall|i: int, j: int|
                0 <= i < j < t.aliases.len() ==> !before(
                    (#[trigger] t.aliases[j]).alias,
                    (#[trigger] t.aliases[i]).alias,
                )
        },
{
    let i = choose|i: int| 0 <= i < state.targets.len() && state.targets[i] == row;
    lemma_lookup_at::<TargetRow>(state.targets, i);
    a_target_has_the_aliases_of_its_rows(state.aliases, row.id);
    let own = aliases_of(state.aliases, row.id);
    lemma_sorted::<ResolvedAlias>(own);
    let t = state.by_id(id)->Some_0;
    assert forall|i: int, j: int| 0 <= i < j < t.aliases.len() implies !before(
        (#[trigger] t.aliases[j]).alias,
        (#[trigger] t.aliases[i]).alias,
    ) by {
        assert(!<ResolvedAlias as crate::order::Sortable>::after(t.aliases[i], t.aliases[j]));
    }
}

/// An id without a row gives nothing.
pub proof fn ids_without_a_row_give_nothing(state: CacheView, id: u128)
    requires
        forall|i: int| 0 <= i < state.targets.len() ==> (#[trigger] state.targets[i]).id
            != hyphenated(id),
    ensures
        state.by_id(id) is None,
{
    assert(!has_key::<TargetRow>(state.targets, hyphenated(id))) by {
        if has_key::<TargetRow>(state.targets, hyphenated(id)) {
            let i = choose|i: int| keyed_at::<TargetRow>(state.targets, hyphenated(id), i);
            assert(state.targets[i].id == hyphenated(id));
        }
    }
}

/// A target is found by its object id, as its own id gives it; an object id that no
/// row has gives nothing.
pub proof fn targets_are_found_by_object_id(state: CacheView, oid: i64, i: int, id: u128)
    requires
        0 <= i < state.targets.len(),
        state.targets[i].simbad_oid == Some(oid),
        forall|j: int| 0 <= j < i ==> (#[trigger] state.targets[j]).simbad_oid != Some(oid),
        state.targets[i].id == hyphenated(id),
    ensures
        state.by_oid(oid) == Ok::<Option<CachedView>, Seq<char>>(state.by_id(id)),
{
    the_first_row_of_an_object_id_counts(state.targets, oid, i);
    id_text_round_trips(id);
}

/// A target is found by the normalized form of an alias, as its own id gives it.
pub proof fn targets_are_found_by_form(state: CacheView, form: Seq<char>, i: int, id: u128)
    requires
        0 <= i < state.aliases.len(),
        state.aliases[i].alias.normalized == form,
        forall|j: int| 0 <= j < i ==> (#[trigger] state.aliases[j]).alias.normalized != form,
        state.aliases[i].target_id == hyphenated(id),
    ensures
        state.by_form(form) == Ok::<Option<CachedView>, Seq<char>>(state.by_id(id)),
{
    the_first_row_of_a_form_counts(state.aliases, form, i);
    id_text_round_trips(id);
}

/// An object id and a form that no row has give nothing.
pub proof fn unknown_keys_give_nothing(state: CacheView, oid: i64, form: Seq<char>)
    ensures
        (forall|j: int|
            0 <= j < state.targets.len() ==> (#[trigger] state.targets[j]).simbad_oid != Some(oid))
            ==> state.by_oid(oid) == Ok::<Option<CachedView>, Seq<char>>(None),
        (forall|j: int|
            0 <= j < state.aliases.len() ==> (#[trigger] state.aliases[j]).alias.normalized
                != form) ==> state.by_form(form) == Ok::<Option<CachedView>, Seq<char>>(None),
{
    if forall|j: int|
        0 <= j < state.targets.len() ==> (#[trigger] state.targets[j]).simbad_oid != Some(oid) {
        no_row_of_an_object_id(state.targets, oid);
    }
    if forall|j: int|
        0 <= j < state.aliases.len() ==> (#[trigger] state.aliases[j]).alias.normalized != form {
        no_row_of_a_form(state.aliases, form);
    }
}

// ── Upserting ────────────────────────────────────────────────────────────────

/// What becomes of an upsert that finds a row: the row is written where it was
/// shipped, where the user now chose, and where both were resolved; else it stays.
pub open spec fn outcome_over(new: TargetSource, stored: TargetSource) -> UpsertOutcome {
    if stored == TargetSource::Seed || new == TargetSource::UserOverride || (new
        == TargetSource::Resolved && stored == TargetSource::Resolved) {
        UpsertOutcome::Updated
    } else {
        UpsertOutcome::SkippedUserOverride
    }
}

/// An upsert goes to the row of its object id, whatever its designation.
pub proof fn upserts_go_to_the_row_of_their_object_id(
    state: CacheView,
    identity: IdentityView,
    namespace: u128,
    oid: i64,
    i: int,
)
    requires
        identity.simbad_oid == Some(oid),
        0 <= i < state.targets.len(),
        state.targets[i].simbad_oid == Some(oid),
        forall|j: int| 0 <= j < i ==> (#[trigger] state.targets[j]).simbad_oid != Some(oid),
    ensures
        state.decision(identity, namespace) == (
            state.targets[i].id,
            outcome_over(identity.source, state.targets[i].source),
        ),
{
    the_first_row_of_an_object_id_counts(state.targets, oid, i);
}

/// An upsert whose object id no row has, or that has none, goes to the row whose id
/// is derived from its designation.
pub proof fn other_upserts_go_to_the_row_of_their_designation(
    state: CacheView,
    identity: IdentityView,
    namespace: u128,
    i: int,
)
    requires
        ascending::<TargetRow>(state.targets),
        identity.simbad_oid matches Some(oid) ==> forall|j: int|
            0 <= j < state.targets.len() ==> (#[trigger] state.targets[j]).simbad_oid != Some(oid),
        0 <= i < state.targets.len(),
        state.targets[i].id == hyphenated(target_id(namespace, identity.primary_designation)),
    ensures
        state.decision(identity, namespace) == (
            state.targets[i].id,
            outcome_over(identity.source, state.targets[i].source),
        ),
{
    if let Some(oid) = identity.simbad_oid {
        no_row_of_an_object_id(state.targets, oid);
    }
    lemma_lookup_at::<TargetRow>(state.targets, i);
}

/// An upsert that finds no row adds one, under the id that is derived from its
/// designation.
pub proof fn new_objects_are_inserted(
    state: CacheView,
    identity: IdentityView,
    namespace: u128,
)
    requires
        identity.simbad_oid matches Some(oid) ==> forall|j: int|
            0 <= j < state.targets.len() ==> (#[trigger] state.targets[j]).simbad_oid != Some(oid),
        forall|j: int|
            0 <= j < state.targets.len() ==> (#[trigger] state.targets[j]).id != hyphenated(
                target_id(namespace, identity.primary_designation),
            ),
    ensures
        state.decision(identity, namespace) == (
            hyphenated(target_id(namespace, identity.primary_designation)),
            UpsertOutcome::Inserted,
        ),
{
    if let Some(oid) = identity.simbad_oid {
        no_row_of_an_object_id(state.targets, oid);
    }
    let derived = hyphenated(target_id(namespace, identity.primary_designation));
    if has_key::<TargetRow>(state.targets, derived) {
        let i = choose|i: int| keyed_at::<TargetRow>(state.targets, derived, i);
        assert(state.targets[i].id == derived);
    }
}

/// The form of every name of an identity is the form of some stored name.
pub proof fn every_form_is_stored(identity: IdentityView, i: int)
    requires
        0 <= i < identity.aliases.len(),
    ensures
        exists|k: int|
            0 <= k < stored_aliases(identity).len() && (#[trigger] stored_aliases(
                identity,
            )[k]).normalized == identity.aliases[i].normalized,
{
    stored_aliases_are_complete(identity);
    let form = identity.aliases[i].normalized;
    assert(has_normalized(stored_aliases(identity), form));
}

/// The first stored name is the primary designation as the identity has it among its
/// designations, the first of that form, or else the primary designation itself.
pub proof fn the_primary_designation_is_stored_first(identity: IdentityView, i: int)
    ensures
        stored_aliases(identity).len() > 0,
        (0 <= i < identity.aliases.len() && identity.aliases[i].kind == AliasKind::Designation
            && identity.aliases[i].normalized == normalized(identity.primary_designation) && (
        forall|j: int|
            0 <= j < i && (#[trigger] identity.aliases[j]).kind == AliasKind::Designation
                ==> identity.aliases[j].normalized != normalized(identity.primary_designation)))
            ==> stored_aliases(identity)[0] == identity.aliases[i],
        (forall|j: int|
            0 <= j < identity.aliases.len() && (#[trigger] identity.aliases[j]).kind
                == AliasKind::Designation ==> identity.aliases[j].normalized != normalized(
                identity.primary_designation,
            )) ==> stored_aliases(identity)[0] == (AliasView {
            alias: identity.primary_designation,
            normalized: normalized(identity.primary_designation),
            kind: AliasKind::Designation,
        }),
{
    let form = normalized(identity.primary_designation);
    let all = with_primary(identity.aliases, identity.primary_designation);
    lemma_first_is_kept(all);
    if 0 <= i < identity.aliases.len() && identity.aliases[i].kind == AliasKind::Designation
        && identity.aliases[i].normalized == form && (forall|j: int|
        0 <= j < i && (#[trigger] identity.aliases[j]).kind == AliasKind::Designation
            ==> identity.aliases[j].normalized != form) {
        lemma_first_designation_at(identity.aliases, form, i);
    }
    if forall|j: int|
        0 <= j < identity.aliases.len() && (#[trigger] identity.aliases[j]).kind
            == AliasKind::Designation ==> identity.aliases[j].normalized != form {
        lemma_no_designation(identity.aliases, form);
    }
}

proof fn lemma_first_is_kept(s: Seq<AliasView>)
    requires
        s.len() > 0,
    ensures
        distinct_forms(s).len() > 0,
        distinct_forms(s)[0] == s[0],
    decreases s.len(),
{
    if s.len() > 1 {
        lemma_first_is_kept(s.drop_last());
    } else {
        assert(distinct_forms(s.drop_last()).len() == 0);
        assert(!has_normalized(distinct_forms(s.drop_last()), s.last().normalized));
    }
}

proof fn lemma_no_designation(s: Seq<AliasView>, form: Seq<char>)
    requires
        forall|j: int|
            0 <= j < s.len() && (#[trigger] s[j]).kind == AliasKind::Designation
                ==> s[j].normalized != form,
    ensures
        first_designation(s, form) is None,
    decreases s.len(),
{
    if s.len() > 0 {
        let front = s.drop_last();
        assert forall|j: int|
            0 <= j < front.len() && (#[trigger] front[j]).kind
                == AliasKind::Designation implies front[j].normalized != form by {
            assert(front[j] == s[j]);
        }
        lemma_no_designation(front, form);
        assert(s[s.len() - 1] == s.last());
    }
}

proof fn lemma_first_designation_at(s: Seq<AliasView>, form: Seq<char>, i: int)
    requires
        0 <= i < s.len(),
        s[i].kind == AliasKind::Designation,
        s[i].normalized == form,
        forall|j: int|
            0 <= j < i && (#[trigger] s[j]).kind == AliasKind::Designation ==> s[j].normalized
                != form,
    ensures
        first_designation(s, form) == Some(s[i]),
    decreases s.len(),
{
    let front = s.drop_last();
    if i < front.len() {
        lemma_first_designation_at(front, form, i);
    } else {
        lemma_no_designation(front, form);
    }
}

/// A batch is its upserts one after the other: each goes to the store that those
/// before it left, and its result is the id and the outcome that it has there. Gives
/// the stores in between.
pub proof fn batches_upsert_one_by_one(
    start: CacheView,
    batch: Seq<UpsertView>,
    namespace: u128,
    n: int,
) -> (states: Seq<CacheView>)
    requires
        0 <= n <= batch.len(),
        upserts(start, batch, namespace, n) is Ok,
    ensures
        ({
            let (end, results) = upserts(start, batch, namespace, n)->Ok_0;
            &&& states.len() == n + 1
            &&& states[0] == start
            &&& states[n] == end
            &&& results.len() == n
            &&& forall|i: int|
                0 <= i < n ==> {
                    let (key, outcome) = states[i].decision(batch[i].identity, namespace);
                    &&& id_of_text(key) == Some((#[trigger] results[i]).0)
                    &&& results[i].1 == outcome
                    &&& states[i + 1] == states[i].upserted(batch[i], namespace)
                }
        }),
    decreases n,
{
    if n == 0 {
        seq![start]
    } else {
        let front = batches_upsert_one_by_one(start, batch, namespace, n - 1);
        let (middle, some) = upserts(start, batch, namespace, n - 1)->Ok_0;
        let (end, results) = upserts(start, batch, namespace, n)->Ok_0;
        let states = front.push(end);
        assert forall|i: int| 0 <= i < n implies {
            let (key, outcome) = states[i].decision(batch[i].identity, namespace);
            &&& id_of_text(key) == Some((#[trigger] results[i]).0)
            &&& results[i].1 == outcome
            &&& states[i + 1] == states[i].upserted(batch[i], namespace)
        } by {
            if i < n - 1 {
                assert(results[i] == some[i]);
                assert(states[i] == front[i] && states[i + 1] == front[i + 1]);
            } else {
                assert(states[i] == middle);
                assert(states[i + 1] == end);
            }
        }
        states
    }
}

/// A batch stops at the first upsert that finds a row whose key is no id, and names
/// that key.
pub proof fn batches_stop_at_keys_that_are_no_ids(
    start: CacheView,
    batch: Seq<UpsertView>,
    namespace: u128,
    n: int,
)
    requires
        0 <= n < batch.len(),
    ensures
        upserts(start, batch, namespace, n) matches Ok((state, _)) ==> (upserts(
            start,
            batch,
            namespace,
            n + 1,
        ) is Err <==> id_of_text(state.decision(batch[n].identity, namespace).0) is None),
        upserts(start, batch, namespace, n) matches Err(key) ==> upserts(
            start,
            batch,
            namespace,
            n + 1,
        ) == Err::<(CacheView, Seq<(u128, UpsertOutcome)>), Seq<char>>(key),
{
}

/// A new row has every field of the identity that it is made of.
pub proof fn rows_have_the_fields_of_their_identity(
    key: Seq<char>,
    identity: IdentityView,
    resolved_at: Seq<char>,
)
    ensures
        ({
            let row = TargetRowView::of(key, identity, resolved_at);
            &&& row.id == key
            &&& row.simbad_oid == identity.simbad_oid
            &&& row.primary_designation == identity.primary_designation
            &&& row.common_name == identity.common_name
            &&& row.object_type == identity.object_type
            &&& row.otype_raw == identity.otype_raw
            &&& row.ra_deg == identity.ra_deg
            &&& row.dec_deg == identity.dec_deg
            &&& row.v_mag == identity.v_mag
            &&& row.galdim_majaxis_arcmin == identity.galdim_majaxis_arcmin
            &&& row.galdim_minaxis_arcmin == identity.galdim_minaxis_arcmin
            &&& row.galdim_angle_deg == identity.galdim_angle_deg
            &&& row.source == identity.source
            &&& row.resolved_at == resolved_at
        }),
{
}

/// The id of a target is derived from its designation as it is written, in the
/// namespace of the store, and the namespace from its seed.
pub proof fn ids_are_derived_from_the_designation(
    namespace: u128,
    designation: Seq<char>,
    seed: Seq<char>,
)
    ensures
        target_id(namespace, designation) == named_id(namespace, encode_utf8(designation)),
        namespace_of(seed) == named_id(
            0x6ba7_b810_9dad_11d1_80b4_00c0_4fd4_30c8,
            encode_utf8(seed),
        ),
{
}

/// The list of targets is ordered by designation.
pub proof fn lists_are_ordered_by_designation(state: CacheView)
    requires
        state.listed() is Ok,
    ensures
        forall|i: int, j: int|
            0 <= i < j < state.listed()->Ok_0.len() ==> !before(
                (#[trigger] state.listed()->Ok_0[j]).primary_designation,
                (#[trigger] state.listed()->Ok_0[i]).primary_designation,
            ),
{
    let read = state.read_targets(state.targets.len() as int)->Ok_0;
    lemma_sorted::<CachedTarget>(read);
    let all = state.listed()->Ok_0;
    assert forall|i: int, j: int| 0 <= i < j < all.len() implies !before(
        (#[trigger] all[j]).primary_designation,
        (#[trigger] all[i]).primary_designation,
    ) by {
        assert(!<CachedTarget as crate::order::Sortable>::after(all[i], all[j]));
    }
}

/// Of loaded rows the last of a key counts, and every key has its row.
pub proof fn the_last_row_of_a_key_counts(rows: Seq<TargetRowView>, n: int, i: int)
    requires
        0 <= i < n <= rows.len(),
        forall|j: int| i < j < n ==> (#[trigger] rows[j]).id != rows[i].id,
    ensures
        ascending::<TargetRow>(put_rows::<TargetRow>(Seq::empty(), rows, n)),
        lookup::<TargetRow>(put_rows::<TargetRow>(Seq::empty(), rows, n), rows[i].id) == Some(
            rows[i],
        ),
    decreases n,
{
    lemma_loaded_in_order(rows, n - 1);
    let front = put_rows::<TargetRow>(Seq::empty(), rows, n - 1);
    lemma_put_rows::<TargetRow>(front, rows[n - 1]);
    lemma_put_lookup::<TargetRow>(front, rows[n - 1], rows[i].id);
    if i < n - 1 {
        the_last_row_of_a_key_counts(rows, n - 1, i);
        assert(rows[n - 1].id != rows[i].id);
    }
}

proof fn lemma_loaded_in_order(rows: Seq<TargetRowView>, n: int)
    requires
        n <= rows.len(),
    ensures
        ascending::<TargetRow>(put_rows::<TargetRow>(Seq::empty(), rows, n)),
    decreases n,
{
    if n > 0 {
        lemma_loaded_in_order(rows, n - 1);
        lemma_put_rows::<TargetRow>(
            put_rows::<TargetRow>(Seq::empty(), rows, n - 1),
            rows[n - 1],
        );
    }
}

// ── User aliases ─────────────────────────────────────────────────────────────

/// A user alias is taken where it has a normalized form that the target has not
/// under any name yet, whoever else has it; the target then has it as the user
/// wrote it.
pub proof fn new_user_aliases_are_taken(
    state: CacheView,
    target: u128,
    alias: Seq<char>,
    key: Seq<char>,
)
    requires
        ascending::<TargetRow>(state.targets),
        ascending::<AliasRow>(state.aliases),
        state.by_id(target) is Some,
        normalized(alias).len() > 0,
        forall|i: int|
            0 <= i < state.aliases.len() && (#[trigger] state.aliases[i]).target_id == hyphenated(
                target,
            ) ==> state.aliases[i].alias.normalized != normalized(alias),
    ensures
        state.with_user_alias(target, alias, key).aliases.contains(
            AliasRowView {
                alias_id: key,
                target_id: hyphenated(target),
                alias: AliasView {
                    alias,
                    normalized: normalized(alias),
                    kind: AliasKind::User,
                },
            },
        ),
        state.with_user_alias(target, alias, key).by_id(target) matches Some(t)
            && t.aliases.contains(
            AliasView { alias, normalized: normalized(alias), kind: AliasKind::User },
        ),
        state.with_user_alias(target, alias, key).targets == state.targets,
{
    let row = AliasRowView {
        alias_id: key,
        target_id: hyphenated(target),
        alias: AliasView { alias, normalized: normalized(alias), kind: AliasKind::User },
    };
    let next = state.with_user_alias(target, alias, key);
    assert(state.takes_alias(target, alias));
    lemma_put_rows::<AliasRow>(state.aliases, row);
    assert(next.aliases.contains(row));
    let own = aliases_of(next.aliases, hyphenated(target));
    lemma_owned_alias(next.aliases, hyphenated(target), row);
    lemma_sorted_contains::<ResolvedAlias>(own, row.alias);
}

proof fn lemma_owned_alias(s: Seq<AliasRowView>, target: Seq<char>, row: AliasRowView)
    requires
        s.contains(row),
        row.target_id == target,
    ensures
        aliases_of(s, target).contains(row.alias),
    decreases s.len(),
{
    let front = s.drop_last();
    let i = choose|i: int| 0 <= i < s.len() && s[i] == row;
    if i < front.len() {
        assert(front[i] == row);
        lemma_owned_alias(front, target, row);
        let a = aliases_of(front, target);
        let k = choose|k: int| 0 <= k < a.len() && a[k] == row.alias;
        assert(aliases_of(s, target)[k] == row.alias);
    } else {
        assert(aliases_of(s, target).last() == row.alias);
    }
}

/// A user alias without a normalized form, or of a form that the target has, is not
/// taken, and nothing changes.
pub proof fn other_user_aliases_change_nothing(
    state: CacheView,
    target: u128,
    alias: Seq<char>,
    key: Seq<char>,
    i: int,
)
    requires
        normalized(alias).len() == 0 || (0 <= i < state.aliases.len() && state.aliases[i].target_id
            == hyphenated(target) && state.aliases[i].alias.normalized == normalized(alias)),
    ensures
        !state.takes_alias(target, alias),
        state.with_user_alias(target, alias, key) == state,
{
}

/// A user alias is removed by the key of its row; the key of anything else removes
/// nothing.
pub proof fn user_aliases_are_removed_by_key(state: CacheView, i: int, key: Seq<char>)
    requires
        ascending::<AliasRow>(state.aliases),
        0 <= i < state.aliases.len(),
    ensures
        state.aliases[i].alias.kind == AliasKind::User ==> !has_key::<AliasRow>(
            state.without_user_alias(state.aliases[i].alias_id).aliases,
            state.aliases[i].alias_id,
        ),
        state.aliases[i].alias.kind != AliasKind::User ==> state.without_user_alias(
            state.aliases[i].alias_id,
        ) == state,
        !has_key::<AliasRow>(state.aliases, key) ==> state.without_user_alias(key) == state,
{
    lemma_lookup_at::<AliasRow>(state.aliases, i);
    let id = state.aliases[i].alias_id;
    crate::table::lemma_remove_rows::<AliasRow>(state.aliases, id);
    let rest = state.without_user_alias(id).aliases;
    if state.aliases[i].alias.kind == AliasKind::User && has_key::<AliasRow>(rest, id) {
        let j = choose|j: int| keyed_at::<AliasRow>(rest, id, j);
        assert(rest.contains(rest[j]));
    }
}

// ── The queue ────────────────────────────────────────────────────────────────

/// The items that wait are those whose state is `pending`, all of them, in the
/// order of the table.
pub proof fn pending_items_wait(s: Seq<PendingRowView>)
    ensures
        waiting(s) == s.filter(|x: PendingRowView| x.state == "pending"@),
    decreases s.len(),
{
    reveal(Seq::filter);
    if s.len() > 0 {
        pending_items_wait(s.drop_last());
    }
}

/// An item that waits is read as a pending one, and one that does not wait is read
/// as another, where it is read at all.
pub proof fn only_pending_items_wait(row: PendingRowView)
    ensures
        row.item() matches Ok(item) ==> (row.waits() <==> item.state == PendingState::Pending),
        row.item() matches Ok(item) ==> item.id == row.id && item.query == row.query
            && item.attempts == row.attempts,
{
    PendingState::Pending.wire_round_trips();
}

/// An item is read with the state of its text and the target of its id; where
/// either cannot be read, the item says which.
pub proof fn items_are_read_from_their_rows(row: PendingRowView, target: u128)
    ensures
        PendingState::of_wire(row.state) is None ==> row.item() == Err::<PendingView, RowFault>(
            RowFault::State(row.state),
        ),
        PendingState::of_wire(row.state) matches Some(state) ==> (row.target_id is None
            ==> row.item() == Ok::<PendingView, RowFault>(
            PendingView {
                id: row.id,
                query: row.query,
                state,
                attempts: row.attempts,
                target_id: None,
            },
        )),
        PendingState::of_wire(row.state) matches Some(state) ==> (row.target_id == Some(
            hyphenated(target),
        ) ==> row.item() == Ok::<PendingView, RowFault>(
            PendingView {
                id: row.id,
                query: row.query,
                state,
                attempts: row.attempts,
                target_id: Some(target),
            },
        )),
{
    id_text_round_trips(target);
}

} // verus!
