//! The identity store: read models, stored rows and the operations on them.
//!
//! The store is a durable dictionary of canonical identities, found by id, by
//! SIMBAD object id and by any alias. Its data are two ordered tables, targets
//! and aliases, and a third for the queue of pending work. The operations of
//! this module work on an image of those tables in memory and log every change,
//! so that whoever keeps the tables on disk can apply the same changes there.

pub mod batch_laws;
pub mod laws;
pub mod queue;
pub mod queue_laws;
pub mod reads;
pub mod search;
pub mod search_laws;
pub mod state;
pub mod store_laws;
pub mod tables;
pub mod user;

use vstd::prelude::*;

use crate::float::Double;
use crate::order::{before, goes_before, lemma_asymmetric, lemma_irreflexive, lemma_total, lemma_transitive, views, Sortable};
use crate::text::same_text;
use crate::types::{copy_aliases, copy_opt, opt_text, AliasView, IdentityView, ObjectType, ResolvedAlias, ResolvedIdentity, TargetSource};

verus! {

// ── Read models ──────────────────────────────────────────────────────────────

/// The view of a [`CachedTarget`].
#[verifier::ext_equal]
pub struct CachedView {
    pub id: u128,
    pub simbad_oid: Option<i64>,
    pub primary_designation: Seq<char>,
    pub common_name: Option<Seq<char>>,
    pub object_type: ObjectType,
    pub otype_raw: Seq<char>,
    pub ra_deg: Double,
    pub dec_deg: Double,
    pub v_mag: Option<Double>,
    pub galdim_majaxis_arcmin: Option<Double>,
    pub galdim_minaxis_arcmin: Option<Double>,
    pub galdim_angle_deg: Option<i16>,
    pub source: TargetSource,
    pub resolved_at: Seq<char>,
    pub aliases: Seq<AliasView>,
}

impl CachedView {
    /// The identity of a cached target.
    pub open spec fn identity(self) -> IdentityView {
        IdentityView {
            simbad_oid: self.simbad_oid,
            primary_designation: self.primary_designation,
            common_name: self.common_name,
            object_type: self.object_type,
            otype_raw: self.otype_raw,
            ra_deg: self.ra_deg,
            dec_deg: self.dec_deg,
            v_mag: self.v_mag,
            galdim_majaxis_arcmin: self.galdim_majaxis_arcmin,
            galdim_minaxis_arcmin: self.galdim_minaxis_arcmin,
            galdim_angle_deg: self.galdim_angle_deg,
            aliases: self.aliases,
            source: self.source,
        }
    }
}

/// A stored target with its aliases, as it is read back.
#[derive(Debug, PartialEq)]
pub struct CachedTarget {
    /// The id of the target.
    pub id: u128,
    /// SIMBAD physical-object id, when resolved online.
    pub simbad_oid: Option<i64>,
    /// Canonical display designation.
    pub primary_designation: String,
    /// Curated common name, where there is one.
    pub common_name: Option<String>,
    /// Closed classification.
    pub object_type: ObjectType,
    /// The raw SIMBAD `otype`.
    pub otype_raw: String,
    /// ICRS J2000 right ascension in degrees.
    pub ra_deg: Double,
    /// ICRS J2000 declination in degrees.
    pub dec_deg: Double,
    /// Johnson V magnitude, where known.
    pub v_mag: Option<Double>,
    /// Major-axis diameter in arcminutes; `None` for a point source.
    pub galdim_majaxis_arcmin: Option<Double>,
    /// Minor-axis diameter in arcminutes; `None` for a point source.
    pub galdim_minaxis_arcmin: Option<Double>,
    /// Position angle of the major axis in degrees; `None` for a point source.
    pub galdim_angle_deg: Option<i16>,
    /// Where the stored identity comes from.
    pub source: TargetSource,
    /// RFC 3339 time of the last write.
    pub resolved_at: String,
    /// All aliases.
    pub aliases: Vec<ResolvedAlias>,
}

impl View for CachedTarget {
    type V = CachedView;

    open spec fn view(&self) -> CachedView {
        CachedView {
            id: self.id,
            simbad_oid: self.simbad_oid,
            primary_designation: self.primary_designation@,
            common_name: opt_text(self.common_name),
            object_type: self.object_type,
            otype_raw: self.otype_raw@,
            ra_deg: self.ra_deg,
            dec_deg: self.dec_deg,
            v_mag: self.v_mag,
            galdim_majaxis_arcmin: self.galdim_majaxis_arcmin,
            galdim_minaxis_arcmin: self.galdim_minaxis_arcmin,
            galdim_angle_deg: self.galdim_angle_deg,
            source: self.source,
            resolved_at: self.resolved_at@,
            aliases: views(self.aliases@),
        }
    }
}

impl Clone for CachedTarget {
    fn clone(&self) -> (r: Self)
        ensures
            r@ == self@,
    {
        CachedTarget {
            id: self.id,
            simbad_oid: self.simbad_oid,
            primary_designation: self.primary_designation.clone(),
            common_name: copy_opt(&self.common_name),
            object_type: self.object_type,
            otype_raw: self.otype_raw.clone(),
            ra_deg: self.ra_deg,
            dec_deg: self.dec_deg,
            v_mag: self.v_mag,
            galdim_majaxis_arcmin: self.galdim_majaxis_arcmin,
            galdim_minaxis_arcmin: self.galdim_minaxis_arcmin,
            galdim_angle_deg: self.galdim_angle_deg,
            source: self.source,
            resolved_at: self.resolved_at.clone(),
            aliases: copy_aliases(&self.aliases),
        }
    }
}

impl CachedTarget {
    /// The identity of this target.
    pub fn to_identity(&self) -> (r: ResolvedIdentity)
        ensures
            r@ == self@.identity(),
    {
        ResolvedIdentity {
            simbad_oid: self.simbad_oid,
            primary_designation: self.primary_designation.clone(),
            common_name: copy_opt(&self.common_name),
            object_type: self.object_type,
            otype_raw: self.otype_raw.clone(),
            ra_deg: self.ra_deg,
            dec_deg: self.dec_deg,
            v_mag: self.v_mag,
            galdim_majaxis_arcmin: self.galdim_majaxis_arcmin,
            galdim_minaxis_arcmin: self.galdim_minaxis_arcmin,
            galdim_angle_deg: self.galdim_angle_deg,
            aliases: copy_aliases(&self.aliases),
            source: self.source,
        }
    }
}

/// Targets are listed by their primary designation.
impl Sortable for CachedTarget {
    open spec fn after(a: CachedView, b: CachedView) -> bool {
        before(b.primary_designation, a.primary_designation)
    }

    proof fn lemma_after_irreflexive(a: CachedView) {
        lemma_irreflexive(a.primary_designation);
    }

    proof fn lemma_not_after_transitive(a: CachedView, b: CachedView, c: CachedView) {
        lemma_total(a.primary_designation, b.primary_designation);
        if before(c.primary_designation, a.primary_designation) && before(
            a.primary_designation,
            b.primary_designation,
        ) {
            lemma_transitive(
                c.primary_designation,
                a.primary_designation,
                b.primary_designation,
            );
        }
    }

    proof fn lemma_after_asymmetric(a: CachedView, b: CachedView) {
        lemma_asymmetric(b.primary_designation, a.primary_designation);
    }

    fn is_after(&self, other: &Self) -> (r: bool) {
        goes_before(other.primary_designation.as_str(), self.primary_designation.as_str())
    }
}

/// The view of a [`SearchHit`].
#[verifier::ext_equal]
pub struct HitView {
    pub target: CachedView,
    pub matched_alias: Seq<char>,
    pub rank: u8,
}

/// One hit of a search.
#[derive(Debug, PartialEq)]
pub struct SearchHit {
    /// The target that matched.
    pub target: CachedTarget,
    /// The display form of the alias that matched.
    pub matched_alias: String,
    /// How it matched: `0` exactly, `1` as a prefix, `2` as a part, `3` by
    /// similarity.
    pub rank: u8,
}

impl View for SearchHit {
    type V = HitView;

    open spec fn view(&self) -> HitView {
        HitView { target: self.target@, matched_alias: self.matched_alias@, rank: self.rank }
    }
}

impl Clone for SearchHit {
    fn clone(&self) -> (r: Self)
        ensures
            r@ == self@,
    {
        SearchHit {
            target: self.target.clone(),
            matched_alias: self.matched_alias.clone(),
            rank: self.rank,
        }
    }
}

/// Rank of an alias that equals the query.
pub const RANK_EXACT: u8 = 0;

/// Rank of an alias that begins with the query.
pub const RANK_PREFIX: u8 = 1;

/// Rank of an alias that holds the query somewhere.
pub const RANK_SUBSTRING: u8 = 2;

/// Rank of an alias that only resembles the query.
pub const RANK_FUZZY: u8 = 3;

/// What an upsert did.
#[derive(Clone, Copy, Debug, Eq, PartialEq, Structural)]
pub enum UpsertOutcome {
    /// A new row was inserted.
    Inserted,
    /// A row that was there, found by object id or by derived id, was replaced.
    Updated,
    /// Nothing was written: the row that is there takes precedence.
    SkippedUserOverride,
}

/// The state of an item of the queue.
#[derive(Clone, Copy, Debug, Eq, PartialEq, Structural)]
pub enum PendingState {
    /// Waiting to be resolved, for the first time or again.
    Pending,
    /// Resolved to a target.
    Resolved,
    /// Known to be unknown or ambiguous.
    Unresolved,
}

impl PendingState {
    /// The stored form of this state.
    pub open spec fn wire(self) -> Seq<char> {
        match self {
            PendingState::Pending => "pending"@,
            PendingState::Resolved => "resolved"@,
            PendingState::Unresolved => "unresolved"@,
        }
    }

    /// The state that a stored form stands for.
    pub open spec fn of_wire(s: Seq<char>) -> Option<PendingState> {
        if s == "pending"@ {
            Some(PendingState::Pending)
        } else if s == "resolved"@ {
            Some(PendingState::Resolved)
        } else if s == "unresolved"@ {
            Some(PendingState::Unresolved)
        } else {
            None
        }
    }

    /// The stored form of this state.
    pub fn as_wire(self) -> (r: &'static str)
        ensures
            r@ == self.wire(),
    {
        match self {
            PendingState::Pending => "pending",
            PendingState::Resolved => "resolved",
            PendingState::Unresolved => "unresolved",
        }
    }

    /// Read a stored form; `None` for unknown text.
    pub fn from_wire(s: &str) -> (r: Option<Self>)
        ensures
            r == Self::of_wire(s@),
    {
        if same_text(s, "pending") {
            Some(PendingState::Pending)
        } else if same_text(s, "resolved") {
            Some(PendingState::Resolved)
        } else if same_text(s, "unresolved") {
            Some(PendingState::Unresolved)
        } else {
            None
        }
    }

    /// Reading what was written gives the state back.
    pub proof fn wire_round_trips(self)
        ensures
            Self::of_wire(self.wire()) == Some(self),
    {
        reveal_strlit("pending");
        reveal_strlit("resolved");
        reveal_strlit("unresolved");
        assert("pending"@.len() == 7);
        assert("resolved"@.len() == 8);
        assert("unresolved"@.len() == 10);
    }
}

/// The view of a [`PendingItem`].
#[verifier::ext_equal]
pub struct PendingView {
    pub id: Seq<char>,
    pub query: Seq<char>,
    pub state: PendingState,
    pub attempts: i64,
    pub target_id: Option<u128>,
}

/// One item of the queue.
#[derive(Debug, Eq, PartialEq)]
pub struct PendingItem {
    /// The caller's id of the item.
    pub id: String,
    /// The name to resolve.
    pub query: String,
    /// Its state.
    pub state: PendingState,
    /// How often it turned out to be unknown or ambiguous.
    pub attempts: i64,
    /// The target that it was resolved to.
    pub target_id: Option<u128>,
}

impl View for PendingItem {
    type V = PendingView;

    open spec fn view(&self) -> PendingView {
        PendingView {
            id: self.id@,
            query: self.query@,
            state: self.state,
            attempts: self.attempts,
            target_id: self.target_id,
        }
    }
}

impl Clone for PendingItem {
    fn clone(&self) -> (r: Self)
        ensures
            r@ == self@,
    {
        PendingItem {
            id: self.id.clone(),
            query: self.query.clone(),
            state: self.state,
            attempts: self.attempts,
            target_id: self.target_id,
        }
    }
}

/// How the commits of a batch of upserts are made durable. Commits of single
/// writes always are.
#[derive(Clone, Copy, Debug, Eq, PartialEq, Structural)]
pub enum BatchDurability {
    /// Every batch is flushed to disk when it is committed.
    Durable,
    /// Batches are not flushed; a later flush persists all of them at once.
    Eventual,
}

impl Default for BatchDurability {
    /// Batches are durable unless the caller asks for less.
    fn default() -> (r: Self)
        ensures
            r == BatchDurability::Durable,
    {
        BatchDurability::Durable
    }
}

// ── Errors ───────────────────────────────────────────────────────────────────

/// An error of the identity store.
#[derive(Debug)]
pub enum CacheError {
    /// The backend failed.
    Backend(String),
    /// A stored id is no UUID: its text, and why it was refused.
    InvalidUuid(String, uuid::Error),
    /// A stored value is outside its closed set.
    InvalidEnum(String),
}

/// An error of the queue.
#[derive(Debug)]
pub enum QueueError {
    /// The backend failed.
    Backend(String),
    /// A stored id is no UUID: its text, and why it was refused.
    InvalidUuid(String, uuid::Error),
    /// A stored state is outside its closed set.
    InvalidState(String),
}

} // verus!
