//! What holds of the identity store as a whole.

use vstd::prelude::*;

use crate::cache::reads::{aliases_of, first_with_form};
use crate::cache::state::{distinct_forms, existing_row, first_with_oid, not_owned_by, put_aliases, stored_aliases, upserts, with_primary, AliasRow, AliasRowView, CacheView, TargetRow, TargetRowView, UpsertView};
use crate::cache::tables::{lemma_first_with_oid, lemma_not_owned, lemma_put_aliases, lemma_put_keeps_oids, unique_oids};
use crate::cache::{CachedTarget, CachedView, UpsertOutcome};
use crate::identity::{hyphenated, id_of_text, id_text_round_trips, id_texts_differ, is_id_text, target_id};
use crate::normalize::normalized;
use crate::order::{before, in_order, lemma_same_elements_differ, lemma_sorted, lemma_sorted_contains, sorted};
use crate::table::{ascending, has_key, keyed_at, lemma_key_unique, lemma_lookup_at, lemma_lookup_found, lemma_lookup_iff, lemma_put_lookup, lemma_put_rows, lemma_remove_rows, lemma_same_rows, lookup, put, remove, Row};
use crate::types::{first_designation, forms_differ, has_normalized, AliasKind, AliasView, IdentityView, ResolvedAlias, TargetSource};

verus! {

// ── Sound states ─────────────────────────────────────────────────────────────

/// Whether every key of a target is the text of an id.
pub open spec fn canonical_keys(targets: Seq<TargetRowView>) -> bool {
    forall|x: TargetRowView| #[trigger] targets.contains(x) ==> is_id_text(x.id)
}

/// Whether every owner of an alias is the text of an id.
pub open spec fn canonical_owners(aliases: Seq<AliasRowView>) -> bool {
    forall|x: AliasRowView| #[trigger] aliases.contains(x) ==> is_id_text(x.target_id)
}

/// Whether every key of a target, and every owner of an alias, is the text of an
/// id.
pub open spec fn canonical(state: CacheView) -> bool {
    canonical_keys(state.targets) && canonical_owners(state.aliases)
}

/// Whether every alias belongs to a stored target.
pub open spec fn all_owned(state: CacheView) -> bool {
    forall|x: AliasRowView| #[trigger]
        state.aliases.contains(x) ==> has_key::<TargetRow>(state.targets, x.target_id)
}

/// A state as the operations of the store leave it: tables in key order, keys
/// that are ids, no object id twice, and no alias without its target.
pub open spec fn sound(state: CacheView) -> bool {
    &&& ascending::<TargetRow>(state.targets)
    &&& ascending::<AliasRow>(state.aliases)
    &&& canonical(state)
    &&& unique_oids(state.targets)
    &&& all_owned(state)
}

/// The empty store is sound.
pub proof fn empty_is_sound()
    ensures
        sound(CacheView { targets: Seq::empty(), aliases: Seq::empty() }),
{
}

/// The key under which a sound store keeps an identity is the text of an id.
proof fn lemma_key_is_id(state: CacheView, identity: IdentityView, namespace: u128)
    requires
        sound(state),
    ensures
        is_id_text(state.decision(identity, namespace).0),
{
    let derived = hyphenated(target_id(namespace, identity.primary_designation));
    assert(is_id_text(derived));
    if let Some(oid) = identity.simbad_oid {
        lemma_first_with_oid(state.targets, oid);
    }
    lemma_lookup_found::<TargetRow>(state.targets, derived);
    match existing_row(state.targets, identity, derived) {
        Some(row) => {
            assert(state.targets.contains(row));
        },
        None => {},
    }
}

/// An upsert into a sound store always succeeds, and the id that it returns is
/// that of the row's key.
pub proof fn upsert_succeeds(state: CacheView, identity: IdentityView, namespace: u128)
    requires
        sound(state),
    ensures
        state.upsert_id(identity, namespace) matches Some(id) && hyphenated(id) == state.decision(
            identity,
            namespace,
        ).0,
{
    lemma_key_is_id(state, identity, namespace);
    let key = state.decision(identity, namespace).0;
    let id = choose|id: u128| key == hyphenated(id);
    id_text_round_trips(id);
}

/// Writing under an id keeps a store sound, where no object id comes to stand in
/// two rows.
proof fn lemma_stored_keeps_sound(state: CacheView, key: Seq<char>, u: UpsertView)
    requires
        sound(state),
        is_id_text(key),
        u.alias_ids.len() >= stored_aliases(u.identity).len(),
        unique_oids(
            put::<TargetRow>(
                state.targets,
                TargetRowView::of(key, u.identity, u.resolved_at),
            ),
        ),
    ensures
        sound(state.stored(key, u)),
{
    let row = TargetRowView::of(key, u.identity, u.resolved_at);
    let next = state.stored(key, u);
    let rest = not_owned_by(state.aliases, key);
    let n = stored_aliases(u.identity).len() as int;
    lemma_put_rows::<TargetRow>(state.targets, row);
    lemma_not_owned(state.aliases, key);
    lemma_put_aliases(rest, key, stored_aliases(u.identity), u.alias_ids, n);
    assert forall|x: AliasRowView| #[trigger] next.aliases.contains(x) implies is_id_text(
        x.target_id,
    ) && has_key::<TargetRow>(next.targets, x.target_id) by {
        lemma_put_lookup::<TargetRow>(state.targets, row, x.target_id);
        if !u.alias_ids.take(n).contains(x.alias_id) {
            assert(rest.contains(x));
            assert(state.aliases.contains(x));
        }
    }
    assert forall|x: TargetRowView| #[trigger] next.targets.contains(x) implies is_id_text(
        x.id,
    ) by {
        if x != row {
            assert(state.targets.contains(x));
        }
    }
}

/// An upsert keeps a store sound.
pub proof fn upsert_keeps_sound(state: CacheView, u: UpsertView, namespace: u128)
    requires
        sound(state),
        u.alias_ids.len() >= stored_aliases(u.identity).len(),
    ensures
        sound(state.upserted(u, namespace)),
{
    let (key, outcome) = state.decision(u.identity, namespace);
    if outcome != UpsertOutcome::SkippedUserOverride {
        let derived = hyphenated(target_id(namespace, u.identity.primary_designation));
        lemma_key_is_id(state, u.identity, namespace);
        lemma_put_keeps_oids(state.targets, u.identity, derived, u.resolved_at, 0);
        lemma_stored_keeps_sound(state, key, u);
    }
}

/// Overwriting a stored target with an identity of its own object id keeps a store
/// sound.
pub proof fn overwriting_keeps_sound(state: CacheView, id: u128, u: UpsertView)
    requires
        sound(state),
        state.by_id(id) matches Some(t) && t.simbad_oid == u.identity.simbad_oid,
        u.alias_ids.len() >= stored_aliases(u.identity).len(),
    ensures
        sound(state.stored(hyphenated(id), u)),
{
    let key = hyphenated(id);
    let row = TargetRowView::of(key, u.identity, u.resolved_at);
    let after = put::<TargetRow>(state.targets, row);
    lemma_lookup_found::<TargetRow>(state.targets, key);
    let was = lookup::<TargetRow>(state.targets, key)->Some_0;
    lemma_put_rows::<TargetRow>(state.targets, row);
    assert forall|x: TargetRowView, y: TargetRowView| #[trigger]
        after.contains(x) && #[trigger] after.contains(y) && x.simbad_oid is Some && x.simbad_oid
            == y.simbad_oid implies x == y by {
        assert(state.targets.contains(was));
        if x != row {
            assert(state.targets.contains(x));
        }
        if y != row {
            assert(state.targets.contains(y));
        }
    }
    assert(is_id_text(key));
    lemma_stored_keeps_sound(state, key, u);
}

/// Overwriting a target leaves the rows of all others as they were.
pub proof fn overwriting_touches_one_row(state: CacheView, id: u128, u: UpsertView, k: Seq<char>)
    requires
        ascending::<TargetRow>(state.targets),
        k != hyphenated(id),
    ensures
        lookup::<TargetRow>(state.stored(hyphenated(id), u).targets, k) == lookup::<TargetRow>(
            state.targets,
            k,
        ),
{
    lemma_put_lookup::<TargetRow>(
        state.targets,
        TargetRowView::of(hyphenated(id), u.identity, u.resolved_at),
        k,
    );
}

/// Adding a user alias to a stored target keeps a store sound.
pub proof fn user_alias_keeps_sound(state: CacheView, target: u128, alias: Seq<char>, key: Seq<char>)
    requires
        sound(state),
        has_key::<TargetRow>(state.targets, hyphenated(target)),
    ensures
        sound(state.with_user_alias(target, alias, key)),
{
    let row = AliasRowView {
        alias_id: key,
        target_id: hyphenated(target),
        alias: AliasView::of(alias, AliasKind::User),
    };
    lemma_put_rows::<AliasRow>(state.aliases, row);
    assert(is_id_text(row.target_id));
}

/// Removing a user alias keeps a store sound.
pub proof fn removing_keeps_sound(state: CacheView, key: Seq<char>)
    requires
        sound(state),
    ensures
        sound(state.without_user_alias(key)),
{
    lemma_remove_rows::<AliasRow>(state.aliases, key);
    let next = state.without_user_alias(key);
    assert forall|x: AliasRowView| #[trigger] next.aliases.contains(x) implies state.aliases.contains(
        x,
    ) by {}
}

// ── Precedence ───────────────────────────────────────────────────────────────

/// A row from a source of higher precedence is sticky: an upsert from a lower
/// source that finds it changes nothing and says so.
pub proof fn higher_precedence_is_sticky(
    state: CacheView,
    u: UpsertView,
    namespace: u128,
    row: TargetRowView,
)
    requires
        existing_row(
            state.targets,
            u.identity,
            hyphenated(target_id(namespace, u.identity.primary_designation)),
        ) == Some(row),
        !u.identity.source.overwrites(row.source),
    ensures
        state.upserted(u, namespace) == state,
        state.decision(u.identity, namespace) == (row.id, UpsertOutcome::SkippedUserOverride),
{
}

/// A user override, once stored, survives every later upsert of the same object
/// from another source.
pub proof fn user_override_survives(
    state: CacheView,
    u: UpsertView,
    later: UpsertView,
    namespace: u128,
)
    requires
        sound(state),
        u.alias_ids.len() >= stored_aliases(u.identity).len(),
        u.identity.source == TargetSource::UserOverride,
        later.identity.source != TargetSource::UserOverride,
        later.identity.simbad_oid == u.identity.simbad_oid,
        u.identity.simbad_oid is Some || later.identity.primary_designation
            == u.identity.primary_designation,
    ensures
        state.upserted(u, namespace).upserted(later, namespace) == state.upserted(u, namespace),
{
    upsert_finds_its_row(state, u, namespace);
}

// ── Finding what was stored ──────────────────────────────────────────────────

/// After an upsert that wrote, the row of the identity is the one just written,
/// whether it is found by object id or by derived id.
pub proof fn upsert_finds_its_row(state: CacheView, u: UpsertView, namespace: u128)
    requires
        sound(state),
        state.decision(u.identity, namespace).1 != UpsertOutcome::SkippedUserOverride,
    ensures
        ({
            let key = state.decision(u.identity, namespace).0;
            let next = state.upserted(u, namespace);
            let derived = hyphenated(target_id(namespace, u.identity.primary_designation));
            &&& existing_row(next.targets, u.identity, derived) == Some(
                TargetRowView::of(key, u.identity, u.resolved_at),
            )
            &&& u.identity.simbad_oid matches Some(oid) ==> first_with_oid(next.targets, oid)
                == Some(TargetRowView::of(key, u.identity, u.resolved_at))
        }),
{
    let key = state.decision(u.identity, namespace).0;
    let derived = hyphenated(target_id(namespace, u.identity.primary_designation));
    let row = TargetRowView::of(key, u.identity, u.resolved_at);
    match u.identity.simbad_oid {
        Some(oid) => {
            lemma_put_keeps_oids(state.targets, u.identity, derived, u.resolved_at, oid);
        },
        None => {
            lemma_lookup_found::<TargetRow>(state.targets, derived);
            lemma_put_lookup::<TargetRow>(state.targets, row, derived);
        },
    }
}

/// Upserting an identity again finds the same row and adds none: the key stays,
/// the outcome is an update, and the table keeps its keys.
pub proof fn upsert_deduplicates(
    state: CacheView,
    u: UpsertView,
    again: UpsertView,
    namespace: u128,
)
    requires
        sound(state),
        u.alias_ids.len() >= stored_aliases(u.identity).len(),
        state.decision(u.identity, namespace).1 != UpsertOutcome::SkippedUserOverride,
        again.identity == u.identity,
    ensures
        ({
            let next = state.upserted(u, namespace);
            &&& next.decision(again.identity, namespace) == (
                state.decision(u.identity, namespace).0,
                UpsertOutcome::Updated,
            )
            &&& forall|k: Seq<char>| #[trigger]
                has_key::<TargetRow>(next.upserted(again, namespace).targets, k) <==> has_key::<
                    TargetRow,
                >(next.targets, k)
        }),
{
    upsert_finds_its_row(state, u, namespace);
    upsert_keeps_sound(state, u, namespace);
    let next = state.upserted(u, namespace);
    let key = state.decision(u.identity, namespace).0;
    let row = TargetRowView::of(key, again.identity, again.resolved_at);
    assert forall|k: Seq<char>| #[trigger]
        has_key::<TargetRow>(next.upserted(again, namespace).targets, k) <==> has_key::<TargetRow>(
            next.targets,
            k,
        ) by {
        lemma_put_lookup::<TargetRow>(next.targets, row, k);
        lemma_put_lookup::<TargetRow>(
            state.targets,
            TargetRowView::of(key, u.identity, u.resolved_at),
            k,
        );
    }
}

/// Two upserts with one object id go to one row, whatever their designations.
pub proof fn one_row_for_each_object_id(
    state: CacheView,
    u: UpsertView,
    other: IdentityView,
    namespace: u128,
)
    requires
        sound(state),
        state.decision(u.identity, namespace).1 != UpsertOutcome::SkippedUserOverride,
        u.identity.simbad_oid is Some,
        other.simbad_oid == u.identity.simbad_oid,
    ensures
        state.upserted(u, namespace).decision(other, namespace).0 == state.decision(
            u.identity,
            namespace,
        ).0,
        state.upserted(u, namespace).decision(other, namespace).1 != UpsertOutcome::Inserted,
{
    upsert_finds_its_row(state, u, namespace);
}

// ── Stored aliases ───────────────────────────────────────────────────────────

proof fn lemma_distinct_forms(s: Seq<AliasView>)
    ensures
        forms_differ(distinct_forms(s)),
        forall|form: Seq<char>| #[trigger]
            has_normalized(distinct_forms(s), form) <==> has_normalized(s, form),
        forall|i: int|
            0 <= i < distinct_forms(s).len() ==> s.contains(#[trigger] distinct_forms(s)[i]),
    decreases s.len(),
{
    if s.len() > 0 {
        let front = s.drop_last();
        let last = s.last();
        lemma_distinct_forms(front);
        let d = distinct_forms(front);
        let all = distinct_forms(s);
        assert forall|form: Seq<char>| #[trigger]
            has_normalized(all, form) <==> has_normalized(s, form) by {
            assert(has_normalized(d, form) <==> has_normalized(front, form));
            if has_normalized(s, form) {
                let i = choose|i: int| 0 <= i < s.len() && (#[trigger] s[i]).normalized == form;
                if i < front.len() {
                    assert(front[i].normalized == form);
                } else {
                    assert(last.normalized == form);
                }
            }
            if has_normalized(front, form) {
                let i = choose|i: int|
                    0 <= i < front.len() && (#[trigger] front[i]).normalized == form;
                assert(s[i].normalized == form);
            }
            if last.normalized == form {
                assert(s[s.len() - 1].normalized == form);
            }
            if has_normalized(d, form) {
                let i = choose|i: int| 0 <= i < d.len() && (#[trigger] d[i]).normalized == form;
                assert(all[i].normalized == form);
            }
            if has_normalized(all, form) {
                let i = choose|i: int|
                    0 <= i < all.len() && (#[trigger] all[i]).normalized == form;
                if i < d.len() {
                    assert(d[i].normalized == form);
                } else {
                    assert(last.normalized == form);
                }
            }
            if !has_normalized(d, last.normalized) && last.normalized == form {
                assert(all[all.len() - 1].normalized == form);
            }
        }
        assert forall|i: int| 0 <= i < all.len() implies s.contains(#[trigger] all[i]) by {
            if i < d.len() {
                assert(all[i] == d[i]);
                let k = choose|k: int| 0 <= k < front.len() && front[k] == d[i];
                assert(s[k] == d[i]);
            } else {
                assert(s[s.len() - 1] == all[i]);
            }
        }
        assert forall|i: int, j: int| 0 <= i < j < all.len() implies (#[trigger] all[i]).normalized
            != (#[trigger] all[j]).normalized by {
            assert(all[i] == d[i]);
            if j < d.len() {
                assert(all[j] == d[j]);
            }
        }
    }
}

/// Leaving out later aliases of a form keeps the first one.
proof fn lemma_first_is_kept(s: Seq<AliasView>)
    requires
        s.len() > 0,
    ensures
        distinct_forms(s).len() > 0,
        distinct_forms(s)[0] == s[0],
    decreases s.len(),
{
    if s.len() > 1 {
        lemma_first_is_kept(s.drop_last());
    } else {
        assert(distinct_forms(s.drop_last()) =~= Seq::empty());
    }
}

/// A designation that was found has the form it was looked for under.
pub proof fn lemma_first_designation(s: Seq<AliasView>, form: Seq<char>)
    ensures
        first_designation(s, form) matches Some(a) ==> a.normalized == form && a.kind
            == AliasKind::Designation && s.contains(a),
        forall|i: int|
            0 <= i < s.len() && (#[trigger] s[i]).normalized == form && s[i].kind
                == AliasKind::Designation ==> first_designation(s, form) is Some,
    decreases s.len(),
{
    if s.len() > 0 {
        lemma_first_designation(s.drop_last(), form);
        let front = s.drop_last();
        assert(s[s.len() - 1] == s.last());
        if let Some(a) = first_designation(front, form) {
            let k = choose|k: int| 0 <= k < front.len() && front[k] == a;
            assert(s[k] == a);
        }
        assert forall|i: int|
            0 <= i < s.len() && (#[trigger] s[i]).normalized == form && s[i].kind
                == AliasKind::Designation implies first_designation(s, form) is Some by {
            if i < front.len() {
                assert(front[i] == s[i]);
            }
        }
    }
}

/// What is stored for an identity has no normalized form twice, has that of every
/// alias of the identity, and has that of the primary designation, as a
/// designation.
pub proof fn stored_aliases_are_complete(identity: IdentityView)
    ensures
        forms_differ(stored_aliases(identity)),
        has_normalized(stored_aliases(identity), normalized(identity.primary_designation)),
        forall|i: int|
            0 <= i < stored_aliases(identity).len() && (#[trigger] stored_aliases(
                identity,
            )[i]).normalized == normalized(identity.primary_designation)
                ==> stored_aliases(identity)[i].kind == AliasKind::Designation,
        forall|i: int|
            0 <= i < identity.aliases.len() ==> has_normalized(
                stored_aliases(identity),
                (#[trigger] identity.aliases[i]).normalized,
            ),
        forall|i: int|
            0 <= i < stored_aliases(identity).len() ==> identity.aliases.contains(
                #[trigger] stored_aliases(identity)[i],
            ) || stored_aliases(identity)[i] == AliasView::of(
                identity.primary_designation,
                AliasKind::Designation,
            ),
{
    let all = with_primary(identity.aliases, identity.primary_designation);
    let stored = stored_aliases(identity);
    let primary = normalized(identity.primary_designation);
    lemma_distinct_forms(all);
    lemma_first_is_kept(all);
    lemma_first_designation(identity.aliases, primary);
    assert(all[0].normalized == primary && all[0].kind == AliasKind::Designation);
    assert(has_normalized(all, primary));
    assert(has_normalized(stored, primary));
    assert forall|i: int| 0 <= i < identity.aliases.len() implies has_normalized(
        stored_aliases(identity),
        (#[trigger] identity.aliases[i]).normalized,
    ) by {
        assert(all[i + 1] == identity.aliases[i]);
        assert(has_normalized(all, identity.aliases[i].normalized));
    }
    assert forall|i: int| 0 <= i < stored.len() implies identity.aliases.contains(
        #[trigger] stored[i],
    ) || stored[i] == AliasView::of(
        identity.primary_designation,
        AliasKind::Designation,
    ) by {
        assert(all.contains(stored[i]));
        let k = choose|k: int| 0 <= k < all.len() && all[k] == stored[i];
        if k > 0 {
            assert(identity.aliases[k - 1] == stored[i]);
        }
    }
}

/// Leaving out later aliases of a form keeps the first of each form.
proof fn lemma_first_of_form_is_kept(s: Seq<AliasView>, i: int)
    requires
        0 <= i < s.len(),
        forall|k: int| 0 <= k < i ==> (#[trigger] s[k]).normalized != s[i].normalized,
    ensures
        distinct_forms(s).contains(s[i]),
    decreases s.len(),
{
    let front = s.drop_last();
    let all = distinct_forms(s);
    let d = distinct_forms(front);
    if i < front.len() {
        assert forall|k: int| 0 <= k < i implies (#[trigger] front[k]).normalized
            != front[i].normalized by {
            assert(front[k] == s[k]);
        }
        lemma_first_of_form_is_kept(front, i);
        let k = choose|k: int| 0 <= k < d.len() && d[k] == s[i];
        assert(all[k] == s[i]);
    } else {
        lemma_distinct_forms(front);
        if has_normalized(d, s[i].normalized) {
            assert(has_normalized(front, s[i].normalized));
            let k = choose|k: int|
                0 <= k < front.len() && (#[trigger] front[k]).normalized == s[i].normalized;
            assert(s[k].normalized == s[i].normalized);
        }
        assert(all[all.len() - 1] == s[i]);
    }
}

/// A designation of a form that no alias before it has is the first of its form.
proof fn lemma_designation_is_first(s: Seq<AliasView>, i: int)
    requires
        0 <= i < s.len(),
        s[i].kind == AliasKind::Designation,
        forall|k: int| 0 <= k < i ==> (#[trigger] s[k]).normalized != s[i].normalized,
    ensures
        first_designation(s, s[i].normalized) == Some(s[i]),
    decreases s.len(),
{
    let front = s.drop_last();
    if i < front.len() {
        assert forall|k: int| 0 <= k < i implies (#[trigger] front[k]).normalized
            != front[i].normalized by {
            assert(front[k] == s[k]);
        }
        lemma_designation_is_first(front, i);
    } else {
        lemma_first_designation(front, s[i].normalized);
        if let Some(a) = first_designation(front, s[i].normalized) {
            let k = choose|k: int| 0 <= k < front.len() && front[k] == a;
            assert(s[k] == a);
        }
    }
}

/// An alias is stored as it is, where no alias before it has its form, and where
/// its form is another than that of the primary designation or it is a
/// designation itself.
pub proof fn first_aliases_are_stored(identity: IdentityView, i: int)
    requires
        0 <= i < identity.aliases.len(),
        forall|k: int|
            0 <= k < i ==> (#[trigger] identity.aliases[k]).normalized
                != identity.aliases[i].normalized,
        identity.aliases[i].normalized != normalized(identity.primary_designation)
            || identity.aliases[i].kind == AliasKind::Designation,
    ensures
        stored_aliases(identity).contains(identity.aliases[i]),
{
    let all = with_primary(identity.aliases, identity.primary_designation);
    let form = normalized(identity.primary_designation);
    lemma_first_designation(identity.aliases, form);
    if identity.aliases[i].normalized == form {
        lemma_designation_is_first(identity.aliases, i);
        lemma_first_of_form_is_kept(all, 0);
    } else {
        assert forall|k: int| 0 <= k < i + 1 implies (#[trigger] all[k]).normalized
            != all[i + 1].normalized by {
            if k > 0 {
                assert(all[k] == identity.aliases[k - 1]);
            }
        }
        lemma_first_of_form_is_kept(all, i + 1);
    }
}

// ── Reading back ─────────────────────────────────────────────────────────────

/// Whether the alias ids of an upsert are new to the store and differ from each
/// other, as random ids do.
pub open spec fn fresh_ids(state: CacheView, u: UpsertView) -> bool {
    &&& u.alias_ids.no_duplicates()
    &&& forall|i: int|
        0 <= i < u.alias_ids.len() ==> !has_key::<AliasRow>(
            state.aliases,
            #[trigger] u.alias_ids[i],
        )
}

/// An alias row put under a new key changes nothing for those who do not own it.
proof fn lemma_put_alias_of(s: Seq<AliasRowView>, row: AliasRowView, target: Seq<char>)
    requires
        !has_key::<AliasRow>(s, row.alias_id),
        row.target_id != target,
    ensures
        aliases_of(put::<AliasRow>(s, row), target) == aliases_of(s, target),
    decreases s.len(),
{
    let p = put::<AliasRow>(s, row);
    if s.len() == 0 {
        assert(p.drop_last() =~= s);
    } else {
        let front = s.drop_last();
        let last = s.last();
        assert(keyed_at::<AliasRow>(s, last.alias_id, s.len() - 1));
        assert(last.alias_id != row.alias_id);
        if before(AliasRow::key_of(row), AliasRow::key_of(last)) {
            assert(!has_key::<AliasRow>(front, row.alias_id)) by {
                if has_key::<AliasRow>(front, row.alias_id) {
                    let i = choose|i: int| keyed_at::<AliasRow>(front, row.alias_id, i);
                    assert(keyed_at::<AliasRow>(s, row.alias_id, i));
                }
            }
            lemma_put_alias_of(front, row, target);
            assert(p.drop_last() =~= put::<AliasRow>(front, row));
        } else {
            assert(p.drop_last() =~= s);
        }
    }
}

/// Dropping the aliases of one target leaves those of another.
proof fn lemma_aliases_of_rest(s: Seq<AliasRowView>, dropped: Seq<char>, target: Seq<char>)
    requires
        target != dropped,
    ensures
        aliases_of(not_owned_by(s, dropped), target) == aliases_of(s, target),
    decreases s.len(),
{
    if s.len() > 0 {
        lemma_aliases_of_rest(s.drop_last(), dropped, target);
        if s.last().target_id != dropped {
            assert(not_owned_by(s, dropped).drop_last() =~= not_owned_by(s.drop_last(), dropped));
        }
    }
}

/// The aliases that a target has after new ones of another were put in.
proof fn lemma_aliases_of_put(
    s: Seq<AliasRowView>,
    owner: Seq<char>,
    aliases: Seq<AliasView>,
    ids: Seq<Seq<char>>,
    n: int,
    target: Seq<char>,
)
    requires
        ascending::<AliasRow>(s),
        0 <= n <= aliases.len(),
        n <= ids.len(),
        ids.no_duplicates(),
        forall|i: int| 0 <= i < ids.len() ==> !has_key::<AliasRow>(s, #[trigger] ids[i]),
        owner != target,
    ensures
        aliases_of(put_aliases(s, owner, aliases, ids, n), target) == aliases_of(s, target),
    decreases n,
{
    if n > 0 {
        lemma_aliases_of_put(s, owner, aliases, ids, n - 1, target);
        lemma_put_aliases(s, owner, aliases, ids, n - 1);
        let q = put_aliases(s, owner, aliases, ids, n - 1);
        let row = AliasRowView { alias_id: ids[n - 1], target_id: owner, alias: aliases[n - 1] };
        assert(!has_key::<AliasRow>(q, ids[n - 1])) by {
            if has_key::<AliasRow>(q, ids[n - 1]) {
                lemma_lookup_found::<AliasRow>(q, ids[n - 1]);
                let x = lookup::<AliasRow>(q, ids[n - 1])->Some_0;
                assert(q.contains(x));
                if ids.take(n - 1).contains(ids[n - 1]) {
                    let firsts = ids.take(n - 1);
                    let i = choose|i: int| 0 <= i < firsts.len() && firsts[i] == ids[n - 1];
                    assert(ids[i] == ids[n - 1]);
                } else {
                    assert(s.contains(x));
                    let i = choose|i: int| 0 <= i < s.len() && s[i] == x;
                    assert(keyed_at::<AliasRow>(s, ids[n - 1], i));
                }
            }
        }
        lemma_put_alias_of(q, row, target);
    }
}

/// New ids are new to every part of the table.
proof fn lemma_fresh_in_rest(s: Seq<AliasRowView>, dropped: Seq<char>, k: Seq<char>)
    requires
        ascending::<AliasRow>(s),
        !has_key::<AliasRow>(s, k),
    ensures
        !has_key::<AliasRow>(not_owned_by(s, dropped), k),
{
    lemma_not_owned(s, dropped);
    let rest = not_owned_by(s, dropped);
    if has_key::<AliasRow>(rest, k) {
        lemma_lookup_found::<AliasRow>(rest, k);
        let x = lookup::<AliasRow>(rest, k)->Some_0;
        assert(rest.contains(x));
        assert(s.contains(x));
        let i = choose|i: int| 0 <= i < s.len() && s[i] == x;
        assert(keyed_at::<AliasRow>(s, k, i));
    }
}

/// An alias row put over none of its owner's rows is one more alias of its owner.
proof fn lemma_put_own_alias(s: Seq<AliasRowView>, row: AliasRowView)
    requires
        ascending::<AliasRow>(s),
        forall|x: AliasRowView| #[trigger]
            s.contains(x) && x.alias_id == row.alias_id ==> x.target_id != row.target_id,
    ensures
        aliases_of(put::<AliasRow>(s, row), row.target_id).to_multiset() == aliases_of(
            s,
            row.target_id,
        ).to_multiset().insert(row.alias),
    decreases s.len(),
{
    broadcast use vstd::seq_lib::group_to_multiset_ensures;

    let p = put::<AliasRow>(s, row);
    let owner = row.target_id;
    if s.len() == 0 {
        assert(p.drop_last() =~= s);
        assert(aliases_of(s, owner) =~= Seq::empty());
    } else {
        let front = s.drop_last();
        let last = s.last();
        assert(s[s.len() - 1] == last && s.contains(last));
        if last.alias_id == row.alias_id {
            assert(p.drop_last() =~= front);
        } else if before(AliasRow::key_of(row), AliasRow::key_of(last)) {
            assert forall|x: AliasRowView| #[trigger]
                front.contains(x) && x.alias_id == row.alias_id implies x.target_id
                != row.target_id by {
                let i = choose|i: int| 0 <= i < front.len() && front[i] == x;
                assert(s[i] == x && s.contains(x));
            }
            lemma_put_own_alias(front, row);
            let q = put::<AliasRow>(front, row);
            assert(p.drop_last() =~= q);
            if last.target_id == owner {
                assert(aliases_of(q, owner).push(last.alias).to_multiset() =~= aliases_of(
                    front,
                    owner,
                ).push(last.alias).to_multiset().insert(row.alias));
            }
        } else {
            assert(p.drop_last() =~= s);
        }
    }
}

/// The aliases that a target without any has after the first `n` new ones were
/// put in, under ids that differ.
proof fn lemma_own_aliases_put(
    s: Seq<AliasRowView>,
    owner: Seq<char>,
    aliases: Seq<AliasView>,
    ids: Seq<Seq<char>>,
    n: int,
)
    requires
        ascending::<AliasRow>(s),
        forall|x: AliasRowView| #[trigger] s.contains(x) ==> x.target_id != owner,
        0 <= n <= aliases.len(),
        n <= ids.len(),
        ids.no_duplicates(),
    ensures
        aliases_of(put_aliases(s, owner, aliases, ids, n), owner).to_multiset() == aliases.take(
            n,
        ).to_multiset(),
    decreases n,
{
    broadcast use vstd::seq_lib::group_to_multiset_ensures;

    if n > 0 {
        lemma_own_aliases_put(s, owner, aliases, ids, n - 1);
        lemma_put_aliases(s, owner, aliases, ids, n - 1);
        let q = put_aliases(s, owner, aliases, ids, n - 1);
        let row = AliasRowView { alias_id: ids[n - 1], target_id: owner, alias: aliases[n - 1] };
        assert forall|x: AliasRowView| #[trigger]
            q.contains(x) && x.alias_id == row.alias_id implies x.target_id != owner by {
            if ids.take(n - 1).contains(x.alias_id) {
                let firsts = ids.take(n - 1);
                let i = choose|i: int| 0 <= i < firsts.len() && firsts[i] == ids[n - 1];
                assert(ids[i] == ids[n - 1]);
            } else {
                assert(s.contains(x));
            }
        }
        lemma_put_own_alias(q, row);
        assert(aliases.take(n) =~= aliases.take(n - 1).push(aliases[n - 1]));
        assert(aliases.take(n).to_multiset() =~= aliases.take(n - 1).to_multiset().insert(
            aliases[n - 1],
        ));
    } else {
        assert(aliases.take(0) =~= Seq::empty());
        lemma_aliases_of_none(s, owner);
    }
}

proof fn lemma_aliases_of_none(s: Seq<AliasRowView>, owner: Seq<char>)
    requires
        forall|x: AliasRowView| #[trigger] s.contains(x) ==> x.target_id != owner,
    ensures
        aliases_of(s, owner) == Seq::<AliasView>::empty(),
    decreases s.len(),
{
    if s.len() > 0 {
        let front = s.drop_last();
        assert(s[s.len() - 1] == s.last() && s.contains(s.last()));
        assert forall|x: AliasRowView| #[trigger] front.contains(x) implies x.target_id
            != owner by {
            let i = choose|i: int| 0 <= i < front.len() && front[i] == x;
            assert(s[i] == x && s.contains(x));
        }
        lemma_aliases_of_none(front, owner);
    }
}

/// Lists with the same aliases have the same forms, each as often.
pub proof fn lemma_same_aliases(a: Seq<AliasView>, b: Seq<AliasView>)
    requires
        a.to_multiset() == b.to_multiset(),
    ensures
        forall|x: AliasView| #[trigger] a.contains(x) <==> b.contains(x),
        forall|form: Seq<char>| #[trigger] has_normalized(a, form) <==> has_normalized(b, form),
        forms_differ(b) ==> forms_differ(a),
{
    broadcast use vstd::seq_lib::group_to_multiset_ensures;

    assert forall|x: AliasView| #[trigger] a.contains(x) <==> b.contains(x) by {
        assert(a.contains(x) <==> a.to_multiset().count(x) > 0);
        assert(b.contains(x) <==> b.to_multiset().count(x) > 0);
    }
    assert forall|form: Seq<char>| #[trigger]
        has_normalized(a, form) <==> has_normalized(b, form) by {
        if has_normalized(a, form) {
            let i = choose|i: int| 0 <= i < a.len() && (#[trigger] a[i]).normalized == form;
            assert(a.contains(a[i]));
            let k = choose|k: int| 0 <= k < b.len() && b[k] == a[i];
            assert(b[k].normalized == form);
        }
        if has_normalized(b, form) {
            let i = choose|i: int| 0 <= i < b.len() && (#[trigger] b[i]).normalized == form;
            assert(b.contains(b[i]));
            assert(a.contains(b[i]));
            let k = choose|k: int| 0 <= k < a.len() && a[k] == b[i];
            assert(a[k].normalized == form);
        }
    }
    if forms_differ(b) {
        lemma_same_elements_differ(a, b, |x: AliasView| x.normalized);
    }
}

/// What was written under the key of an id is read back: the id gives a target
/// with every field of the identity, the time of the write, and the stored
/// aliases sorted by display form.
pub proof fn written_identity_is_read_back(state: CacheView, id: u128, u: UpsertView)
    requires
        ascending::<TargetRow>(state.targets),
        ascending::<AliasRow>(state.aliases),
        u.alias_ids.len() == stored_aliases(u.identity).len(),
        u.alias_ids.no_duplicates(),
    ensures
        state.stored(hyphenated(id), u).by_id(id) matches Some(t) && {
            &&& t.id == id
            &&& t.identity() == (IdentityView { aliases: t.aliases, ..u.identity })
            &&& t.resolved_at == u.resolved_at
            &&& in_order::<ResolvedAlias>(t.aliases)
            &&& t.aliases.to_multiset() == stored_aliases(u.identity).to_multiset()
            &&& names_are_kept(u.identity, t.aliases)
        },
{
    let key = hyphenated(id);
    let row = TargetRowView::of(key, u.identity, u.resolved_at);
    let aliases = stored_aliases(u.identity);
    let rest = not_owned_by(state.aliases, key);
    lemma_put_lookup::<TargetRow>(state.targets, row, key);
    lemma_not_owned(state.aliases, key);
    lemma_own_aliases_put(rest, key, aliases, u.alias_ids, aliases.len() as int);
    assert(aliases.take(aliases.len() as int) =~= aliases);
    let found = aliases_of(state.stored(key, u).aliases, key);
    lemma_sorted::<ResolvedAlias>(found);
    stored_aliases_are_complete(u.identity);
    let shown = sorted::<ResolvedAlias>(found);
    lemma_same_aliases(shown, aliases);
    assert forall|i: int|
        0 <= i < shown.len() && (#[trigger] shown[i]).normalized == normalized(
            u.identity.primary_designation,
        ) implies shown[i].kind == AliasKind::Designation by {
        assert(shown.contains(shown[i]));
        let k = choose|k: int| 0 <= k < aliases.len() && aliases[k] == shown[i];
        assert(aliases[k].kind == AliasKind::Designation);
    }
}

/// Whether `aliases` has the names of an identity: the normalized form of its
/// primary designation, as a designation, that of every alias, and none twice.
pub open spec fn names_are_kept(identity: IdentityView, aliases: Seq<AliasView>) -> bool {
    &&& forms_differ(aliases)
    &&& has_normalized(aliases, normalized(identity.primary_designation))
    &&& forall|i: int|
        0 <= i < aliases.len() && (#[trigger] aliases[i]).normalized == normalized(
            identity.primary_designation,
        ) ==> aliases[i].kind == AliasKind::Designation
    &&& forall|i: int|
        0 <= i < identity.aliases.len() ==> has_normalized(
            aliases,
            (#[trigger] identity.aliases[i]).normalized,
        )
}

/// What was stored is read back: after an upsert that wrote, the id that it
/// returned gives a target with every field of the identity, the time of the
/// write, and the stored aliases sorted by display form. It holds of any tables
/// in key order; the row that is written has to have the text of an id as its key,
/// which a row that is found need not have.
pub proof fn stored_identity_is_read_back(state: CacheView, u: UpsertView, namespace: u128)
    requires
        ascending::<TargetRow>(state.targets),
        ascending::<AliasRow>(state.aliases),
        is_id_text(state.decision(u.identity, namespace).0),
        u.alias_ids.len() == stored_aliases(u.identity).len(),
        u.alias_ids.no_duplicates(),
        state.decision(u.identity, namespace).1 != UpsertOutcome::SkippedUserOverride,
    ensures
        state.upsert_id(u.identity, namespace) matches Some(id) && state.upserted(
            u,
            namespace,
        ).by_id(id) matches Some(t) && {
            &&& t.id == id
            &&& t.identity() == (IdentityView { aliases: t.aliases, ..u.identity })
            &&& t.resolved_at == u.resolved_at
            &&& in_order::<ResolvedAlias>(t.aliases)
            &&& t.aliases.to_multiset() == stored_aliases(u.identity).to_multiset()
            &&& names_are_kept(u.identity, t.aliases)
        },
{
    let key = state.decision(u.identity, namespace).0;
    let id = choose|id: u128| key == hyphenated(id);
    id_text_round_trips(id);
    written_identity_is_read_back(state, id, u);
}

/// Writing under one key leaves every target with another as it was, with its
/// aliases.
pub proof fn other_targets_stay(state: CacheView, key: Seq<char>, u: UpsertView, other: u128)
    requires
        ascending::<TargetRow>(state.targets),
        ascending::<AliasRow>(state.aliases),
        u.alias_ids.len() == stored_aliases(u.identity).len(),
        fresh_ids(state, u),
        hyphenated(other) != key,
    ensures
        state.stored(key, u).by_id(other) == state.by_id(other),
{
    let row = TargetRowView::of(key, u.identity, u.resolved_at);
    let aliases = stored_aliases(u.identity);
    let rest = not_owned_by(state.aliases, key);
    let k = hyphenated(other);
    lemma_put_lookup::<TargetRow>(state.targets, row, k);
    lemma_lookup_found::<TargetRow>(state.targets, k);
    lemma_not_owned(state.aliases, key);
    assert forall|i: int| 0 <= i < u.alias_ids.len() implies !has_key::<AliasRow>(
        rest,
        #[trigger] u.alias_ids[i],
    ) by {
        lemma_fresh_in_rest(state.aliases, key, u.alias_ids[i]);
    }
    lemma_aliases_of_put(rest, key, aliases, u.alias_ids, aliases.len() as int, k);
    lemma_aliases_of_rest(state.aliases, key, k);
}

/// An upsert leaves every other target as it was, with its aliases.
pub proof fn other_targets_are_untouched(
    state: CacheView,
    u: UpsertView,
    namespace: u128,
    other: u128,
)
    requires
        ascending::<TargetRow>(state.targets),
        ascending::<AliasRow>(state.aliases),
        u.alias_ids.len() == stored_aliases(u.identity).len(),
        fresh_ids(state, u),
        hyphenated(other) != state.decision(u.identity, namespace).0,
    ensures
        state.upserted(u, namespace).by_id(other) == state.by_id(other),
{
    other_targets_stay(state, state.decision(u.identity, namespace).0, u, other);
}

/// What the first alias row with a form is.
pub proof fn lemma_first_with_form(s: Seq<AliasRowView>, form: Seq<char>)
    ensures
        match first_with_form(s, form) {
            Some(row) => s.contains(row) && row.alias.normalized == form,
            None => forall|x: AliasRowView| #[trigger]
                s.contains(x) ==> x.alias.normalized != form,
        },
    decreases s.len(),
{
    if s.len() > 0 {
        let front = s.drop_last();
        let last = s.last();
        lemma_first_with_form(front, form);
        assert(s =~= front.push(last));
        assert forall|x: AliasRowView| #[trigger]
            s.contains(x) <==> (front.contains(x) || x == last) by {
            vstd::seq_lib::lemma_seq_contains_after_push(front, last, x);
        }
    }
}

/// The alias of a row is among the aliases of its owner.
proof fn lemma_aliases_of_has(s: Seq<AliasRowView>, row: AliasRowView)
    requires
        s.contains(row),
    ensures
        aliases_of(s, row.target_id).contains(row.alias),
    decreases s.len(),
{
    let front = s.drop_last();
    let last = s.last();
    assert(s =~= front.push(last));
    vstd::seq_lib::lemma_seq_contains_after_push(front, last, row);
    if last == row {
        let all = aliases_of(s, row.target_id);
        assert(all[all.len() - 1] == row.alias);
    } else {
        lemma_aliases_of_has(front, row);
        let a = aliases_of(front, row.target_id);
        let i = choose|i: int| 0 <= i < a.len() && a[i] == row.alias;
        assert(aliases_of(s, row.target_id)[i] == row.alias);
    }
}

/// An alias of a target is the alias of a row that the target owns.
pub proof fn lemma_aliases_of_from(s: Seq<AliasRowView>, target: Seq<char>, a: AliasView)
    requires
        aliases_of(s, target).contains(a),
    ensures
        exists|row: AliasRowView| #[trigger]
            s.contains(row) && row.target_id == target && row.alias == a,
    decreases s.len(),
{
    let all = aliases_of(s, target);
    let k = choose|k: int| 0 <= k < all.len() && all[k] == a;
    let front = s.drop_last();
    let last = s.last();
    assert(s[s.len() - 1] == last && s.contains(last));
    let own = aliases_of(front, target);
    if k < own.len() {
        assert(own[k] == a);
        lemma_aliases_of_from(front, target, a);
        let row = choose|row: AliasRowView| #[trigger]
            front.contains(row) && row.target_id == target && row.alias == a;
        let i = choose|i: int| 0 <= i < front.len() && front[i] == row;
        assert(s[i] == row && s.contains(row));
    } else {
        assert(last.target_id == target && last.alias == a);
    }
}

/// A stored name leads to its target: where no other target has an alias of that
/// form, the form gives the target.
pub proof fn names_of_a_target_find_it(state: CacheView, t: CachedView, i: int)
    requires
        state.by_id(t.id) == Some(t),
        0 <= i < t.aliases.len(),
        forall|x: AliasRowView| #[trigger]
            state.aliases.contains(x) && x.alias.normalized == t.aliases[i].normalized
                ==> x.target_id == hyphenated(t.id),
    ensures
        state.by_form(t.aliases[i].normalized) == Ok::<_, Seq<char>>(Some(t)),
{
    let key = hyphenated(t.id);
    let form = t.aliases[i].normalized;
    lemma_lookup_found::<TargetRow>(state.targets, key);
    let own = aliases_of(state.aliases, key);
    assert(t.aliases == sorted::<ResolvedAlias>(own));
    assert(t.aliases.contains(t.aliases[i]));
    lemma_sorted_contains::<ResolvedAlias>(own, t.aliases[i]);
    lemma_aliases_of_from(state.aliases, key, t.aliases[i]);
    lemma_first_with_form(state.aliases, form);
    let first = first_with_form(state.aliases, form)->Some_0;
    assert(state.aliases.contains(first));
    id_text_round_trips(t.id);
}

/// In a sound store an alias is always found: the query of any stored form gives
/// a target that has an alias of that form.
pub proof fn stored_form_is_found(state: CacheView, row: AliasRowView)
    requires
        sound(state),
        state.aliases.contains(row),
    ensures
        state.by_form(row.alias.normalized) matches Ok(Some(t)) && has_normalized(
            t.aliases,
            row.alias.normalized,
        ),
{
    let form = row.alias.normalized;
    lemma_first_with_form(state.aliases, form);
    assert(first_with_form(state.aliases, form) is Some);
    let first = first_with_form(state.aliases, form)->Some_0;
    assert(state.aliases.contains(first));
    let id = choose|id: u128| first.target_id == hyphenated(id);
    id_text_round_trips(id);
    lemma_lookup_found::<TargetRow>(state.targets, first.target_id);
    lemma_aliases_of_has(state.aliases, first);
    let own = aliases_of(state.aliases, first.target_id);
    lemma_sorted_contains::<ResolvedAlias>(own, first.alias);
    let shown = sorted::<ResolvedAlias>(own);
    let i = choose|i: int| 0 <= i < shown.len() && shown[i] == first.alias;
    assert(shown[i].normalized == form);
}

/// After an upsert that wrote, every stored form of the identity is found.
pub proof fn stored_aliases_are_found(state: CacheView, u: UpsertView, namespace: u128, j: int)
    requires
        sound(state),
        u.alias_ids.len() == stored_aliases(u.identity).len(),
        u.alias_ids.no_duplicates(),
        state.decision(u.identity, namespace).1 != UpsertOutcome::SkippedUserOverride,
        0 <= j < stored_aliases(u.identity).len(),
    ensures
        ({
            let form = stored_aliases(u.identity)[j].normalized;
            state.upserted(u, namespace).by_form(form) matches Ok(Some(t)) && has_normalized(
                t.aliases,
                form,
            )
        }),
{
    let key = state.decision(u.identity, namespace).0;
    let aliases = stored_aliases(u.identity);
    let next = state.upserted(u, namespace);
    upsert_keeps_sound(state, u, namespace);
    let rest = not_owned_by(state.aliases, key);
    lemma_not_owned(state.aliases, key);
    lemma_put_keeps_row(rest, key, aliases, u.alias_ids, j + 1, aliases.len() as int);
    let row = AliasRowView { alias_id: u.alias_ids[j], target_id: key, alias: aliases[j] };
    stored_form_is_found(next, row);
}

/// After an upsert that wrote, every stored form of the identity that no other
/// target has leads to the row just written: all names of an object are names of
/// one target.
pub proof fn names_lead_to_one_target(state: CacheView, u: UpsertView, namespace: u128, j: int)
    requires
        sound(state),
        u.alias_ids.len() == stored_aliases(u.identity).len(),
        u.alias_ids.no_duplicates(),
        state.decision(u.identity, namespace).1 != UpsertOutcome::SkippedUserOverride,
        0 <= j < stored_aliases(u.identity).len(),
        forall|x: AliasRowView| #[trigger]
            state.aliases.contains(x) && x.alias.normalized == stored_aliases(
                u.identity,
            )[j].normalized ==> x.target_id == state.decision(u.identity, namespace).0,
    ensures
        ({
            let next = state.upserted(u, namespace);
            let form = stored_aliases(u.identity)[j].normalized;
            state.upsert_id(u.identity, namespace) matches Some(id) && next.by_id(id) is Some
                && next.by_form(form) == Ok::<_, Seq<char>>(next.by_id(id))
        }),
{
    let key = state.decision(u.identity, namespace).0;
    let aliases = stored_aliases(u.identity);
    let n = aliases.len() as int;
    let form = aliases[j].normalized;
    let next = state.upserted(u, namespace);
    upsert_succeeds(state, u.identity, namespace);
    stored_aliases_are_found(state, u, namespace, j);
    let rest = not_owned_by(state.aliases, key);
    lemma_not_owned(state.aliases, key);
    lemma_put_aliases(rest, key, aliases, u.alias_ids, n);
    lemma_first_with_form(next.aliases, form);
    let first = first_with_form(next.aliases, form)->Some_0;
    assert(first.target_id == key) by {
        assert(next.aliases.contains(first));
        if !u.alias_ids.take(n).contains(first.alias_id) {
            assert(rest.contains(first));
            assert(state.aliases.contains(first));
        }
    }
}

/// A row that was put stays while rows are put under other keys.
proof fn lemma_put_keeps_row(
    s: Seq<AliasRowView>,
    owner: Seq<char>,
    aliases: Seq<AliasView>,
    ids: Seq<Seq<char>>,
    j: int,
    n: int,
)
    requires
        ascending::<AliasRow>(s),
        1 <= j <= n <= aliases.len(),
        n <= ids.len(),
        ids.no_duplicates(),
    ensures
        put_aliases(s, owner, aliases, ids, n).contains(
            AliasRowView { alias_id: ids[j - 1], target_id: owner, alias: aliases[j - 1] },
        ),
    decreases n,
{
    let row = AliasRowView { alias_id: ids[n - 1], target_id: owner, alias: aliases[n - 1] };
    let q = put_aliases(s, owner, aliases, ids, n - 1);
    lemma_put_aliases(s, owner, aliases, ids, n - 1);
    lemma_put_rows::<AliasRow>(q, row);
    if j < n {
        lemma_put_keeps_row(s, owner, aliases, ids, j, n - 1);
        assert(ids[j - 1] != ids[n - 1]);
    }
}

// ── Lists ────────────────────────────────────────────────────────────────────

proof fn lemma_read_targets(state: CacheView, n: int)
    requires
        ascending::<TargetRow>(state.targets),
        canonical_keys(state.targets),
        0 <= n <= state.targets.len(),
    ensures
        state.read_targets(n) matches Ok(all) && {
            &&& all.len() == n
            &&& forall|i: int|
                0 <= i < n ==> hyphenated((#[trigger] all[i]).id) == state.targets[i].id
                    && state.by_id(all[i].id) == Some(all[i])
        },
    decreases n,
{
    if n > 0 {
        lemma_read_targets(state, n - 1);
        let row = state.targets[n - 1];
        assert(state.targets.contains(row));
        let id = choose|id: u128| row.id == hyphenated(id);
        id_text_round_trips(id);
        lemma_lookup_at::<TargetRow>(state.targets, n - 1);
    }
}

/// Whether no two targets of `s` have one id.
pub open spec fn ids_differ(s: Seq<CachedView>) -> bool {
    forall|i: int, j: int| 0 <= i < j < s.len() ==> (#[trigger] s[i]).id != (#[trigger] s[j]).id
}

/// Where all keys are ids, the list has every target once, as its id gives it, in
/// the order of their designations.
pub proof fn list_has_every_target(state: CacheView)
    requires
        ascending::<TargetRow>(state.targets),
        canonical_keys(state.targets),
    ensures
        state.listed() matches Ok(all) && {
            &&& all.len() == state.targets.len()
            &&& in_order::<CachedTarget>(all)
            &&& ids_differ(all)
            &&& forall|t: CachedView| #[trigger]
                all.contains(t) ==> state.by_id(t.id) == Some(t)
            &&& forall|id: u128| (#[trigger] state.by_id(id)) matches Some(t) ==> all.contains(t)
        },
{
    let n = state.targets.len() as int;
    lemma_read_targets(state, n);
    let read = state.read_targets(n)->Ok_0;
    lemma_sorted::<CachedTarget>(read);
    let all = sorted::<CachedTarget>(read);
    assert forall|i: int, j: int| 0 <= i < j < read.len() implies (#[trigger] read[i]).id != (
    #[trigger] read[j]).id by {
        if read[i].id == read[j].id {
            lemma_key_unique::<TargetRow>(state.targets, i, j);
        }
    }
    lemma_same_elements_differ(all, read, |t: CachedView| t.id);
    assert forall|t: CachedView| #[trigger] all.contains(t) implies state.by_id(t.id) == Some(t) by {
        lemma_sorted_contains::<CachedTarget>(read, t);
        let i = choose|i: int| 0 <= i < read.len() && read[i] == t;
        assert(state.by_id(read[i].id) == Some(read[i]));
    }
    assert forall|id: u128| (#[trigger] state.by_id(id)) matches Some(t) implies all.contains(
        state.by_id(id)->Some_0,
    ) by {
        let t = state.by_id(id)->Some_0;
        let k = hyphenated(id);
        lemma_lookup_found::<TargetRow>(state.targets, k);
        let row = lookup::<TargetRow>(state.targets, k)->Some_0;
        let i = choose|i: int| 0 <= i < state.targets.len() && state.targets[i] == row;
        assert(hyphenated(read[i].id) == k);
        id_texts_differ(read[i].id, id);
        assert(read[i] == t);
        lemma_sorted_contains::<CachedTarget>(read, t);
    }
}

/// Reads never fail where all keys and owners are ids.
pub proof fn reads_succeed(state: CacheView, oid: i64, form: Seq<char>)
    requires
        ascending::<TargetRow>(state.targets),
        canonical(state),
    ensures
        state.by_oid(oid) is Ok,
        state.by_form(form) is Ok,
        state.listed() is Ok,
{
    lemma_first_with_oid(state.targets, oid);
    lemma_first_with_form(state.aliases, form);
    if let Some(row) = first_with_oid(state.targets, oid) {
        let id = choose|id: u128| row.id == hyphenated(id);
        id_text_round_trips(id);
    }
    if let Some(row) = first_with_form(state.aliases, form) {
        let id = choose|id: u128| row.target_id == hyphenated(id);
        id_text_round_trips(id);
    }
    list_has_every_target(state);
}

// ── User aliases ─────────────────────────────────────────────────────────────

/// Adding a user alias twice adds it once.
pub proof fn adding_twice_adds_once(
    state: CacheView,
    target: u128,
    alias: Seq<char>,
    key: Seq<char>,
    again: Seq<char>,
)
    requires
        ascending::<AliasRow>(state.aliases),
    ensures
        !state.with_user_alias(target, alias, key).takes_alias(target, alias),
        state.with_user_alias(target, alias, key).with_user_alias(target, alias, again)
            == state.with_user_alias(target, alias, key),
{
    if state.takes_alias(target, alias) {
        let row = AliasRowView {
            alias_id: key,
            target_id: hyphenated(target),
            alias: AliasView::of(alias, AliasKind::User),
        };
        let next = state.with_user_alias(target, alias, key);
        lemma_put_rows::<AliasRow>(state.aliases, row);
        assert(next.aliases.contains(row));
        let i = choose|i: int| 0 <= i < next.aliases.len() && next.aliases[i] == row;
        assert(next.aliases[i].target_id == hyphenated(target)
            && next.aliases[i].alias.normalized == normalized(alias));
    }
}

/// Removing a user alias that was just added, under a new key, undoes it.
pub proof fn removing_undoes_adding(
    state: CacheView,
    target: u128,
    alias: Seq<char>,
    key: Seq<char>,
)
    requires
        ascending::<AliasRow>(state.aliases),
        !has_key::<AliasRow>(state.aliases, key),
    ensures
        state.with_user_alias(target, alias, key).without_user_alias(key) == state,
        state.takes_alias(target, alias) ==> state.with_user_alias(
            target,
            alias,
            key,
        ).is_user_alias(key),
{
    if state.takes_alias(target, alias) {
        let row = AliasRowView {
            alias_id: key,
            target_id: hyphenated(target),
            alias: AliasView::of(alias, AliasKind::User),
        };
        let next = state.with_user_alias(target, alias, key);
        lemma_put_rows::<AliasRow>(state.aliases, row);
        lemma_put_lookup::<AliasRow>(state.aliases, row, key);
        lemma_remove_rows::<AliasRow>(next.aliases, key);
        let back = remove::<AliasRow>(next.aliases, key);
        assert forall|x: AliasRowView| back.contains(x) <==> state.aliases.contains(x) by {
            if state.aliases.contains(x) {
                let i = choose|i: int| 0 <= i < state.aliases.len() && state.aliases[i] == x;
                if x.alias_id == key {
                    assert(keyed_at::<AliasRow>(state.aliases, key, i));
                }
                assert(next.aliases.contains(x));
            }
            if back.contains(x) {
                assert(next.aliases.contains(x));
            }
        }
        lemma_same_rows::<AliasRow>(back, state.aliases);
    } else {
        assert(lookup::<AliasRow>(state.aliases, key) is None);
    }
}

/// Removing touches one row only, and only one that the user added.
pub proof fn only_user_aliases_are_removed(state: CacheView, key: Seq<char>, row: AliasRowView)
    requires
        ascending::<AliasRow>(state.aliases),
        state.aliases.contains(row),
        row.alias_id != key || row.alias.kind != AliasKind::User,
    ensures
        state.without_user_alias(key).aliases.contains(row),
        state.without_user_alias(key).targets == state.targets,
{
    lemma_remove_rows::<AliasRow>(state.aliases, key);
    if row.alias_id == key {
        lemma_lookup_iff::<AliasRow>(state.aliases, row);
    }
}

// ── Batches ──────────────────────────────────────────────────────────────────

/// The first `n` upserts of a batch do not depend on those behind them.
proof fn lemma_upserts_prefix(
    start: CacheView,
    a: Seq<UpsertView>,
    b: Seq<UpsertView>,
    namespace: u128,
    n: int,
)
    requires
        n <= a.len(),
    ensures
        upserts(start, a + b, namespace, n) == upserts(start, a, namespace, n),
    decreases n,
{
    if n > 0 {
        lemma_upserts_prefix(start, a, b, namespace, n - 1);
        assert((a + b)[n - 1] == a[n - 1]);
    }
}

/// A batch is the same as its upserts one after the other: cut anywhere, it does
/// what its two parts do in turn.
pub proof fn batches_split(
    start: CacheView,
    a: Seq<UpsertView>,
    b: Seq<UpsertView>,
    namespace: u128,
    n: int,
)
    requires
        0 <= n <= b.len(),
    ensures
        upserts(start, a + b, namespace, a.len() + n) == match upserts(
            start,
            a,
            namespace,
            a.len() as int,
        ) {
            Err(key) => Err(key),
            Ok((middle, first)) => match upserts(middle, b, namespace, n) {
                Err(key) => Err(key),
                Ok((end, second)) => Ok((end, first + second)),
            },
        },
    decreases n,
{
    lemma_upserts_prefix(start, a, b, namespace, a.len() as int);
    if n > 0 {
        batches_split(start, a, b, namespace, n - 1);
        assert((a + b)[a.len() + n - 1] == b[n - 1]);
        if let Ok((middle, first)) = upserts(start, a, namespace, a.len() as int) {
            if let Ok((state, second)) = upserts(middle, b, namespace, n - 1) {
                if let Some(id) = id_of_text(state.decision(b[n - 1].identity, namespace).0) {
                    let x = (id, state.decision(b[n - 1].identity, namespace).1);
                    assert((first + second).push(x) =~= first + second.push(x));
                }
            }
        }
    } else if let Ok((middle, first)) = upserts(start, a, namespace, a.len() as int) {
        assert(first + Seq::<(u128, UpsertOutcome)>::empty() =~= first);
    }
}

/// A batch into a sound store succeeds, has one result for every upsert, and
/// leaves the store sound.
pub proof fn batches_succeed(
    start: CacheView,
    batch: Seq<UpsertView>,
    namespace: u128,
    n: int,
)
    requires
        sound(start),
        0 <= n <= batch.len(),
        forall|i: int|
            0 <= i < batch.len() ==> (#[trigger] batch[i]).alias_ids.len() >= stored_aliases(
                batch[i].identity,
            ).len(),
    ensures
        upserts(start, batch, namespace, n) matches Ok((state, results)) && sound(state)
            && results.len() == n,
    decreases n,
{
    if n > 0 {
        batches_succeed(start, batch, namespace, n - 1);
        let (state, results) = upserts(start, batch, namespace, n - 1)->Ok_0;
        upsert_succeeds(state, batch[n - 1].identity, namespace);
        upsert_keeps_sound(state, batch[n - 1], namespace);
    }
}

} // verus!
