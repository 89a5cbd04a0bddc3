//! What the tables of the identity store hold, and what an upsert makes of them.

use vstd::prelude::*;

use crate::cache::{CachedView, UpsertOutcome};
use crate::float::Double;
use crate::identity::{hyphenated, id_of_text, is_id_text, target_id};
use crate::normalize::normalized;
use crate::number::is_digit;
use crate::order::views;
use crate::table::{lookup, put, Row};
use crate::types::{copy_opt, first_designation, has_normalized, opt_text, AliasKind, AliasView, IdentityView, ObjectType, ResolvedAlias, ResolvedIdentity, TargetSource};
use crate::cache::CachedTarget;

verus! {

// ── Stored rows ──────────────────────────────────────────────────────────────

/// The view of a [`TargetRow`].
#[verifier::ext_equal]
pub struct TargetRowView {
    pub id: Seq<char>,
    pub simbad_oid: Option<i64>,
    pub primary_designation: Seq<char>,
    pub common_name: Option<Seq<char>>,
    pub object_type: ObjectType,
    pub otype_raw: Seq<char>,
    pub ra_deg: Double,
    pub dec_deg: Double,
    pub v_mag: Option<Double>,
    pub galdim_majaxis_arcmin: Option<Double>,
    pub galdim_minaxis_arcmin: Option<Double>,
    pub galdim_angle_deg: Option<i16>,
    pub source: TargetSource,
    pub resolved_at: Seq<char>,
}

impl TargetRowView {
    /// The row that an identity is stored as.
    pub open spec fn of(id: Seq<char>, identity: IdentityView, resolved_at: Seq<char>) -> Self {
        TargetRowView {
            id,
            simbad_oid: identity.simbad_oid,
            primary_designation: identity.primary_designation,
            common_name: identity.common_name,
            object_type: identity.object_type,
            otype_raw: identity.otype_raw,
            ra_deg: identity.ra_deg,
            dec_deg: identity.dec_deg,
            v_mag: identity.v_mag,
            galdim_majaxis_arcmin: identity.galdim_majaxis_arcmin,
            galdim_minaxis_arcmin: identity.galdim_minaxis_arcmin,
            galdim_angle_deg: identity.galdim_angle_deg,
            source: identity.source,
            resolved_at,
        }
    }

    /// The target that a row is read back as.
    pub open spec fn target(self, id: u128, aliases: Seq<AliasView>) -> CachedView {
        CachedView {
            id,
            simbad_oid: self.simbad_oid,
            primary_designation: self.primary_designation,
            common_name: self.common_name,
            object_type: self.object_type,
            otype_raw: self.otype_raw,
            ra_deg: self.ra_deg,
            dec_deg: self.dec_deg,
            v_mag: self.v_mag,
            galdim_majaxis_arcmin: self.galdim_majaxis_arcmin,
            galdim_minaxis_arcmin: self.galdim_minaxis_arcmin,
            galdim_angle_deg: self.galdim_angle_deg,
            source: self.source,
            resolved_at: self.resolved_at,
            aliases,
        }
    }
}

/// A row of the target table. Aliases are rows of their own.
#[derive(Debug, PartialEq)]
pub struct TargetRow {
    /// The key: the text of the target's id.
    pub id: String,
    /// SIMBAD physical-object id.
    pub simbad_oid: Option<i64>,
    /// Canonical display designation.
    pub primary_designation: String,
    /// Curated common name.
    pub common_name: Option<String>,
    /// Closed classification.
    pub object_type: ObjectType,
    /// The raw SIMBAD `otype`.
    pub otype_raw: String,
    /// Right ascension in degrees.
    pub ra_deg: Double,
    /// Declination in degrees.
    pub dec_deg: Double,
    /// Johnson V magnitude.
    pub v_mag: Option<Double>,
    /// Major-axis diameter in arcminutes.
    pub galdim_majaxis_arcmin: Option<Double>,
    /// Minor-axis diameter in arcminutes.
    pub galdim_minaxis_arcmin: Option<Double>,
    /// Position angle of the major axis in degrees.
    pub galdim_angle_deg: Option<i16>,
    /// Where the identity comes from.
    pub source: TargetSource,
    /// RFC 3339 time of the last write.
    pub resolved_at: String,
}

impl View for TargetRow {
    type V = TargetRowView;

    open spec fn view(&self) -> TargetRowView {
        TargetRowView {
            id: self.id@,
            simbad_oid: self.simbad_oid,
            primary_designation: self.primary_designation@,
            common_name: opt_text(self.common_name),
            object_type: self.object_type,
            otype_raw: self.otype_raw@,
            ra_deg: self.ra_deg,
            dec_deg: self.dec_deg,
            v_mag: self.v_mag,
            galdim_majaxis_arcmin: self.galdim_majaxis_arcmin,
            galdim_minaxis_arcmin: self.galdim_minaxis_arcmin,
            galdim_angle_deg: self.galdim_angle_deg,
            source: self.source,
            resolved_at: self.resolved_at@,
        }
    }
}

impl Row for TargetRow {
    open spec fn key_of(v: TargetRowView) -> Seq<char> {
        v.id
    }

    fn key(&self) -> (k: &str) {
        self.id.as_str()
    }

    fn copy(&self) -> (r: Self) {
        TargetRow {
            id: self.id.clone(),
            simbad_oid: self.simbad_oid,
            primary_designation: self.primary_designation.clone(),
            common_name: copy_opt(&self.common_name),
            object_type: self.object_type,
            otype_raw: self.otype_raw.clone(),
            ra_deg: self.ra_deg,
            dec_deg: self.dec_deg,
            v_mag: self.v_mag,
            galdim_majaxis_arcmin: self.galdim_majaxis_arcmin,
            galdim_minaxis_arcmin: self.galdim_minaxis_arcmin,
            galdim_angle_deg: self.galdim_angle_deg,
            source: self.source,
            resolved_at: self.resolved_at.clone(),
        }
    }
}

impl TargetRow {
    /// The row that an identity is stored as.
    pub fn from_identity(id: &str, identity: &ResolvedIdentity, resolved_at: &str) -> (r: Self)
        ensures
            r@ == TargetRowView::of(id@, identity@, resolved_at@),
    {
        TargetRow {
            id: id.to_owned(),
            simbad_oid: identity.simbad_oid,
            primary_designation: identity.primary_designation.clone(),
            common_name: copy_opt(&identity.common_name),
            object_type: identity.object_type,
            otype_raw: identity.otype_raw.clone(),
            ra_deg: identity.ra_deg,
            dec_deg: identity.dec_deg,
            v_mag: identity.v_mag,
            galdim_majaxis_arcmin: identity.galdim_majaxis_arcmin,
            galdim_minaxis_arcmin: identity.galdim_minaxis_arcmin,
            galdim_angle_deg: identity.galdim_angle_deg,
            source: identity.source,
            resolved_at: resolved_at.to_owned(),
        }
    }

    /// The target that this row is read back as.
    pub fn to_target(&self, id: u128, aliases: Vec<ResolvedAlias>) -> (r: CachedTarget)
        ensures
            r@ == self@.target(id, views(aliases@)),
    {
        CachedTarget {
            id,
            simbad_oid: self.simbad_oid,
            primary_designation: self.primary_designation.clone(),
            common_name: copy_opt(&self.common_name),
            object_type: self.object_type,
            otype_raw: self.otype_raw.clone(),
            ra_deg: self.ra_deg,
            dec_deg: self.dec_deg,
            v_mag: self.v_mag,
            galdim_majaxis_arcmin: self.galdim_majaxis_arcmin,
            galdim_minaxis_arcmin: self.galdim_minaxis_arcmin,
            galdim_angle_deg: self.galdim_angle_deg,
            source: self.source,
            resolved_at: self.resolved_at.clone(),
            aliases,
        }
    }
}

/// The view of an [`AliasRow`].
#[verifier::ext_equal]
pub struct AliasRowView {
    pub alias_id: Seq<char>,
    pub target_id: Seq<char>,
    pub alias: AliasView,
}

/// A row of the alias table: one alias and the target that owns it.
#[derive(Debug, Eq, PartialEq)]
pub struct AliasRow {
    /// The key: the text of a random id.
    pub alias_id: String,
    /// The key of the owning target.
    pub target_id: String,
    /// The alias.
    pub alias: ResolvedAlias,
}

impl View for AliasRow {
    type V = AliasRowView;

    open spec fn view(&self) -> AliasRowView {
        AliasRowView { alias_id: self.alias_id@, target_id: self.target_id@, alias: self.alias@ }
    }
}

impl Row for AliasRow {
    open spec fn key_of(v: AliasRowView) -> Seq<char> {
        v.alias_id
    }

    fn key(&self) -> (k: &str) {
        self.alias_id.as_str()
    }

    fn copy(&self) -> (r: Self) {
        AliasRow {
            alias_id: self.alias_id.clone(),
            target_id: self.target_id.clone(),
            alias: self.alias.clone(),
        }
    }
}

// ── The state of the store ───────────────────────────────────────────────────

/// What the two tables hold, each in the order of its keys.
#[verifier::ext_equal]
pub struct CacheView {
    pub targets: Seq<TargetRowView>,
    pub aliases: Seq<AliasRowView>,
}

/// The first row, in key order, that has the SIMBAD object id `oid`.
pub open spec fn first_with_oid(targets: Seq<TargetRowView>, oid: i64) -> Option<TargetRowView>
    decreases targets.len(),
{
    if targets.len() == 0 {
        None
    } else {
        match first_with_oid(targets.drop_last(), oid) {
            Some(row) => Some(row),
            None => if targets.last().simbad_oid == Some(oid) {
                Some(targets.last())
            } else {
                None
            },
        }
    }
}

/// The row that an identity would be stored over: the one with its object id,
/// else the one under the id derived from its designation.
pub open spec fn existing_row(
    targets: Seq<TargetRowView>,
    identity: IdentityView,
    derived: Seq<char>,
) -> Option<TargetRowView> {
    let by_oid = match identity.simbad_oid {
        Some(oid) => first_with_oid(targets, oid),
        None => None,
    };
    match by_oid {
        Some(row) => Some(row),
        None => lookup::<TargetRow>(targets, derived),
    }
}

/// The key under which an identity belongs, and what an upsert of it does.
pub open spec fn decide(
    targets: Seq<TargetRowView>,
    identity: IdentityView,
    derived: Seq<char>,
) -> (Seq<char>, UpsertOutcome) {
    match existing_row(targets, identity, derived) {
        Some(row) => if identity.source.overwrites(row.source) {
            (row.id, UpsertOutcome::Updated)
        } else {
            (row.id, UpsertOutcome::SkippedUserOverride)
        },
        None => (derived, UpsertOutcome::Inserted),
    }
}

/// The alias that the primary designation is stored as: the first designation of
/// that normalized form among `aliases`, else the primary designation itself.
pub open spec fn primary_alias(aliases: Seq<AliasView>, primary: Seq<char>) -> AliasView {
    match first_designation(aliases, normalized(primary)) {
        Some(a) => a,
        None => AliasView::of(primary, AliasKind::Designation),
    }
}

/// The aliases of an identity behind the one for its primary designation, which
/// goes before every other alias of its normalized form.
pub open spec fn with_primary(aliases: Seq<AliasView>, primary: Seq<char>) -> Seq<AliasView> {
    seq![primary_alias(aliases, primary)] + aliases
}

/// The aliases of `s` without those whose normalized form came before.
pub open spec fn distinct_forms(s: Seq<AliasView>) -> Seq<AliasView>
    decreases s.len(),
{
    if s.len() == 0 {
        s
    } else {
        let front = distinct_forms(s.drop_last());
        if has_normalized(front, s.last().normalized) {
            front
        } else {
            front.push(s.last())
        }
    }
}

/// The aliases that are stored for an identity.
pub open spec fn stored_aliases(identity: IdentityView) -> Seq<AliasView> {
    distinct_forms(with_primary(identity.aliases, identity.primary_designation))
}

/// The alias rows of `s` that `target` does not own.
pub open spec fn not_owned_by(s: Seq<AliasRowView>, target: Seq<char>) -> Seq<AliasRowView>
    decreases s.len(),
{
    if s.len() == 0 {
        s
    } else if s.last().target_id == target {
        not_owned_by(s.drop_last(), target)
    } else {
        not_owned_by(s.drop_last(), target).push(s.last())
    }
}

/// `s` with the first `n` of `aliases` put under the first `n` of `ids`, as
/// aliases of `target`.
pub open spec fn put_aliases(
    s: Seq<AliasRowView>,
    target: Seq<char>,
    aliases: Seq<AliasView>,
    ids: Seq<Seq<char>>,
    n: int,
) -> Seq<AliasRowView>
    decreases n,
{
    if n <= 0 {
        s
    } else {
        put::<AliasRow>(
            put_aliases(s, target, aliases, ids, n - 1),
            AliasRowView { alias_id: ids[n - 1], target_id: target, alias: aliases[n - 1] },
        )
    }
}

/// The alias table after the aliases of `target` have been replaced by those of
/// an identity, under the ids `ids`.
pub open spec fn rewritten(
    s: Seq<AliasRowView>,
    target: Seq<char>,
    identity: IdentityView,
    ids: Seq<Seq<char>>,
) -> Seq<AliasRowView> {
    let aliases = stored_aliases(identity);
    put_aliases(not_owned_by(s, target), target, aliases, ids, aliases.len() as int)
}

/// Whether `s` has the form of a time in UTC: a date and a time of day down to the
/// second, such as `2026-07-11T08:30:00Z`, with a fraction of up to nine digits
/// where the second is not whole.
pub open spec fn is_utc_time(s: Seq<char>) -> bool {
    &&& 20 <= s.len() <= 30 && s.len() != 21
    &&& forall|i: int|
        0 <= i < s.len() - 1 && i != 4 && i != 7 && i != 10 && i != 13 && i != 16 && i != 19
            ==> is_digit(#[trigger] s[i])
    &&& s[4] == '-' && s[7] == '-' && s[10] == 'T' && s[13] == ':' && s[16] == ':'
    &&& s.len() > 20 ==> s[19] == '.'
    &&& s.last() == 'Z'
}

/// One upsert: the identity, the time that is recorded, and the ids that its
/// aliases get.
#[verifier::ext_equal]
pub struct UpsertView {
    pub identity: IdentityView,
    pub resolved_at: Seq<char>,
    pub alias_ids: Seq<Seq<char>>,
}

impl UpsertView {
    /// Whether the time is one in UTC, there is one alias id for every alias that
    /// is stored, and each is the text of an id.
    pub open spec fn drawn(self) -> bool {
        &&& is_utc_time(self.resolved_at)
        &&& self.alias_ids.len() == stored_aliases(self.identity).len()
        &&& forall|i: int|
            0 <= i < self.alias_ids.len() ==> is_id_text(#[trigger] self.alias_ids[i])
    }
}

impl CacheView {
    /// The key and the outcome of an upsert in `namespace`.
    pub open spec fn decision(self, identity: IdentityView, namespace: u128) -> (
        Seq<char>,
        UpsertOutcome,
    ) {
        let derived = hyphenated(target_id(namespace, identity.primary_designation));
        decide(self.targets, identity, derived)
    }

    /// The state after an identity has been written under `key`, with its
    /// aliases in place of those that `key` had.
    pub open spec fn stored(self, key: Seq<char>, u: UpsertView) -> CacheView {
        CacheView {
            targets: put::<TargetRow>(
                self.targets,
                TargetRowView::of(key, u.identity, u.resolved_at),
            ),
            aliases: rewritten(self.aliases, key, u.identity, u.alias_ids),
        }
    }

    /// The state after an upsert that is not refused.
    pub open spec fn upserted(self, u: UpsertView, namespace: u128) -> CacheView {
        let (key, outcome) = self.decision(u.identity, namespace);
        if outcome == UpsertOutcome::SkippedUserOverride {
            self
        } else {
            self.stored(key, u)
        }
    }

    /// The id that an upsert returns; `None` where the key of the row that it
    /// finds is no UUID, in which case nothing is written.
    pub open spec fn upsert_id(self, identity: IdentityView, namespace: u128) -> Option<u128> {
        id_of_text(self.decision(identity, namespace).0)
    }
}

/// What the first `n` upserts of a batch come to when they are done one after
/// the other: the state and the results, or the key at which they stop.
pub open spec fn upserts(
    start: CacheView,
    batch: Seq<UpsertView>,
    namespace: u128,
    n: int,
) -> Result<(CacheView, Seq<(u128, UpsertOutcome)>), Seq<char>>
    decreases n,
{
    if n <= 0 {
        Ok((start, Seq::empty()))
    } else {
        match upserts(start, batch, namespace, n - 1) {
            Err(key) => Err(key),
            Ok((state, results)) => {
                let u = batch[n - 1];
                let (key, outcome) = state.decision(u.identity, namespace);
                match id_of_text(key) {
                    Some(id) => Ok((state.upserted(u, namespace), results.push((id, outcome)))),
                    None => Err(key),
                }
            },
        }
    }
}

} // verus!
