//! The identity store.

use simbad_resolver::identity::namespace;
use simbad_resolver::normalize::normalize;
use simbad_resolver::{
    AliasKind, AliasRow, BatchDurability, CacheChange, CacheError, CacheTables, CachedTarget,
    Double, ObjectType, PendingState, ResolvedAlias, ResolvedIdentity, TargetRow, TargetSource,
    Upsert, UpsertOutcome, RANK_EXACT, RANK_PREFIX, RANK_SUBSTRING,
};

fn double(x: f64) -> Double {
    Double { bits: x.to_bits() }
}

fn ns() -> u128 {
    namespace("simbad-resolver-cache.tests")
}

fn m31(source: TargetSource) -> ResolvedIdentity {
    ResolvedIdentity {
        simbad_oid: Some(1_575_544),
        primary_designation: "M 31".to_owned(),
        common_name: Some("Andromeda Galaxy".to_owned()),
        object_type: ObjectType::Galaxy,
        otype_raw: "G".to_owned(),
        ra_deg: double(10.684_708),
        dec_deg: double(41.268_75),
        v_mag: Some(double(3.44)),
        galdim_majaxis_arcmin: Some(double(199.53)),
        galdim_minaxis_arcmin: Some(double(70.79)),
        galdim_angle_deg: Some(35),
        aliases: vec![
            ResolvedAlias::new("M 31", AliasKind::Designation),
            ResolvedAlias::new("NGC 224", AliasKind::Designation),
            ResolvedAlias::new("Andromeda Galaxy", AliasKind::CommonName),
        ],
        source,
    }
}

fn m101() -> ResolvedIdentity {
    ResolvedIdentity {
        simbad_oid: Some(3_456_789),
        primary_designation: "M 101".to_owned(),
        common_name: Some("Pinwheel Galaxy".to_owned()),
        object_type: ObjectType::Galaxy,
        otype_raw: "G".to_owned(),
        ra_deg: double(210.802_42),
        dec_deg: double(54.348_95),
        v_mag: Some(double(7.86)),
        galdim_majaxis_arcmin: None,
        galdim_minaxis_arcmin: None,
        galdim_angle_deg: None,
        aliases: vec![
            ResolvedAlias::new("M 101", AliasKind::Designation),
            ResolvedAlias::new("NGC 5457", AliasKind::Designation),
            ResolvedAlias::new("Pinwheel Galaxy", AliasKind::CommonName),
        ],
        source: TargetSource::Seed,
    }
}

fn seeded() -> CacheTables {
    let mut cache = CacheTables::new();
    cache.upsert(&m31(TargetSource::Resolved), ns()).unwrap();
    cache.upsert(&m101(), ns()).unwrap();
    cache
}

fn distinct_identities(prefix: &str, first_oid: i64, n: u32) -> Vec<ResolvedIdentity> {
    (0..n)
        .map(|i| {
            let designation = format!("{prefix} {i}");
            ResolvedIdentity {
                simbad_oid: Some(first_oid + i64::from(i)),
                primary_designation: designation.clone(),
                common_name: None,
                object_type: ObjectType::Galaxy,
                otype_raw: "G".to_owned(),
                ra_deg: double(f64::from(i % 360)),
                dec_deg: double(0.0),
                v_mag: None,
                galdim_majaxis_arcmin: None,
                galdim_minaxis_arcmin: None,
                galdim_angle_deg: None,
                aliases: vec![ResolvedAlias::new(&designation, AliasKind::Designation)],
                source: TargetSource::Seed,
            }
        })
        .collect()
}

/// The id of the stored alias with the display form `display`.
fn alias_id_of(cache: &CacheTables, display: &str) -> String {
    (0..cache.aliases().len())
        .map(|i| cache.aliases().row(i))
        .find(|row| row.alias.alias == display)
        .map(|row| row.alias_id.clone())
        .unwrap()
}

#[test]
fn pending_state_wire_round_trips() {
    for st in [PendingState::Pending, PendingState::Resolved, PendingState::Unresolved] {
        assert_eq!(PendingState::from_wire(st.as_wire()), Some(st));
    }
    assert_eq!(PendingState::Pending.as_wire(), "pending");
    assert_eq!(PendingState::Resolved.as_wire(), "resolved");
    assert_eq!(PendingState::Unresolved.as_wire(), "unresolved");
    assert_eq!(PendingState::from_wire("bogus"), None);
    assert_eq!(PendingState::from_wire(""), None);
}

#[test]
fn batches_are_durable_by_default() {
    assert_eq!(BatchDurability::default(), BatchDurability::Durable);
}

#[test]
fn cached_target_to_identity_preserves_the_identity_fields() {
    let target = CachedTarget {
        id: 0,
        simbad_oid: Some(1_575_544),
        primary_designation: "M 31".to_owned(),
        common_name: Some("Andromeda Galaxy".to_owned()),
        object_type: ObjectType::Galaxy,
        otype_raw: "G".to_owned(),
        ra_deg: double(10.684_708),
        dec_deg: double(41.268_75),
        v_mag: Some(double(3.44)),
        galdim_majaxis_arcmin: Some(double(199.53)),
        galdim_minaxis_arcmin: Some(double(70.79)),
        galdim_angle_deg: Some(35),
        source: TargetSource::Resolved,
        resolved_at: "2026-07-11T00:00:00Z".to_owned(),
        aliases: vec![ResolvedAlias::new("NGC 224", AliasKind::Designation)],
    };

    let identity = target.to_identity();
    assert_eq!(identity.simbad_oid, Some(1_575_544));
    assert_eq!(identity.primary_designation, "M 31");
    assert_eq!(identity.common_name.as_deref(), Some("Andromeda Galaxy"));
    assert_eq!(identity.object_type, ObjectType::Galaxy);
    assert_eq!(identity.otype_raw, "G");
    assert_eq!(identity.v_mag, Some(double(3.44)));
    assert_eq!(identity.galdim_majaxis_arcmin, Some(double(199.53)));
    assert_eq!(identity.galdim_minaxis_arcmin, Some(double(70.79)));
    assert_eq!(identity.galdim_angle_deg, Some(35));
    assert_eq!(identity.ra_deg, double(10.684_708));
    assert_eq!(identity.source, TargetSource::Resolved);
    assert_eq!(identity.aliases, target.aliases);
}

// ── Upserts ──────────────────────────────────────────────────────────────────

#[test]
fn insert_then_read_by_oid() {
    let mut cache = CacheTables::new();
    let (id, outcome) = cache.upsert(&m31(TargetSource::Resolved), ns()).unwrap();
    assert_eq!(outcome, UpsertOutcome::Inserted);

    let got = cache.get_by_simbad_oid(1_575_544).unwrap().unwrap();
    assert_eq!(got.id, id);
    assert_eq!(got.primary_designation, "M 31");
    assert_eq!(got.object_type, ObjectType::Galaxy);
    assert_eq!(got.otype_raw, "G");
    assert_eq!(got.source, TargetSource::Resolved);
    assert_eq!(got.common_name.as_deref(), Some("Andromeda Galaxy"));
    assert_eq!(got.aliases.len(), 3);
}

#[test]
fn read_by_normalized_alias() {
    let mut cache = CacheTables::new();
    cache.upsert(&m31(TargetSource::Resolved), ns()).unwrap();

    let got = cache.get_by_normalized(&normalize("NGC 224")).unwrap().unwrap();
    assert_eq!(got.primary_designation, "M 31");

    let got2 = cache.get_by_normalized(&normalize("Andromeda Galaxy")).unwrap().unwrap();
    assert_eq!(got2.id, got.id);
}

#[test]
fn dedup_by_oid_updates_single_row() {
    let mut cache = CacheTables::new();
    let (id1, _) = cache.upsert(&m31(TargetSource::Resolved), ns()).unwrap();

    let mut alt = m31(TargetSource::Resolved);
    alt.primary_designation = "NGC 224".to_owned();
    let (id2, outcome) = cache.upsert(&alt, ns()).unwrap();
    assert_eq!(outcome, UpsertOutcome::Updated);
    assert_eq!(id1, id2, "dedup by oid must keep the same row id");

    assert_eq!(cache.list().unwrap().len(), 1);
    let got = cache.get_by_id(id1).unwrap();
    assert_eq!(got.primary_designation, "NGC 224");
}

#[test]
fn user_override_is_sticky_against_resolved() {
    let mut cache = CacheTables::new();
    let (id, _) = cache.upsert(&m31(TargetSource::UserOverride), ns()).unwrap();

    let mut later = m31(TargetSource::Resolved);
    later.primary_designation = "WRONG".to_owned();
    let (id2, outcome) = cache.upsert(&later, ns()).unwrap();
    assert_eq!(outcome, UpsertOutcome::SkippedUserOverride);
    assert_eq!(id, id2);

    let got = cache.get_by_id(id).unwrap();
    assert_eq!(got.primary_designation, "M 31");
    assert_eq!(got.source, TargetSource::UserOverride);
}

#[test]
fn user_override_overwrites_resolved() {
    let mut cache = CacheTables::new();
    cache.upsert(&m31(TargetSource::Resolved), ns()).unwrap();

    let mut over = m31(TargetSource::UserOverride);
    over.primary_designation = "Andromeda".to_owned();
    let (_, outcome) = cache.upsert(&over, ns()).unwrap();
    assert_eq!(outcome, UpsertOutcome::Updated);

    let got = cache.get_by_simbad_oid(1_575_544).unwrap().unwrap();
    assert_eq!(got.source, TargetSource::UserOverride);
    assert_eq!(got.primary_designation, "Andromeda");
}

#[test]
fn resolved_refreshes_existing_resolved_row() {
    let mut cache = CacheTables::new();
    cache.upsert(&m31(TargetSource::Resolved), ns()).unwrap();

    let mut refreshed = m31(TargetSource::Resolved);
    refreshed.dec_deg = double(41.0);
    let (_, outcome) = cache.upsert(&refreshed, ns()).unwrap();
    assert_eq!(outcome, UpsertOutcome::Updated);

    let got = cache.get_by_simbad_oid(1_575_544).unwrap().unwrap();
    assert_eq!(got.dec_deg, double(41.0));
}

#[test]
fn null_oid_dedups_by_derived_id() {
    let mut cache = CacheTables::new();
    let mut seed = m31(TargetSource::Seed);
    seed.simbad_oid = None;
    let (id1, o1) = cache.upsert(&seed, ns()).unwrap();
    assert_eq!(o1, UpsertOutcome::Inserted);

    let (id2, o2) = cache.upsert(&seed, ns()).unwrap();
    assert_eq!(id1, id2);
    assert_eq!(o2, UpsertOutcome::Updated);
    assert_eq!(cache.list().unwrap().len(), 1);
}

#[test]
fn get_missing_returns_none() {
    let cache = CacheTables::new();
    assert!(cache.get_by_simbad_oid(999).unwrap().is_none());
    assert!(cache.get_by_normalized("nothing").unwrap().is_none());
    assert!(cache.get_by_id(uuid::Uuid::new_v4().as_u128()).is_none());
}

#[test]
fn aliases_rewritten_on_update() {
    let mut cache = CacheTables::new();
    cache.upsert(&m31(TargetSource::Resolved), ns()).unwrap();

    let mut fewer = m31(TargetSource::Resolved);
    fewer.aliases = vec![ResolvedAlias::new("M 31", AliasKind::Designation)];
    let (id, _) = cache.upsert(&fewer, ns()).unwrap();
    let got = cache.get_by_id(id).unwrap();
    assert_eq!(got.aliases.len(), 1);
    assert_eq!(got.aliases[0].alias, "M 31");
}

#[test]
fn stored_fields_are_read_back() {
    let mut cache = CacheTables::new();
    let identity = m31(TargetSource::Resolved);
    let upsert = Upsert {
        identity: identity.clone(),
        resolved_at: "2026-07-12T00:00:00Z".to_owned(),
        alias_ids: vec!["a".to_owned(), "b".to_owned(), "c".to_owned()],
    };
    let (id, _) = cache.upsert_with(&upsert, ns()).unwrap();
    let got = cache.get_by_id(id).unwrap();
    assert_eq!(got.resolved_at, "2026-07-12T00:00:00Z");
    let names: Vec<&str> = got.aliases.iter().map(|a| a.alias.as_str()).collect();
    assert_eq!(names, vec!["Andromeda Galaxy", "M 31", "NGC 224"]);
    let mut read = got.to_identity();
    read.aliases = identity.aliases.clone();
    assert_eq!(read, identity);
}

#[test]
fn primary_designation_is_stored_as_an_alias() {
    let mut cache = CacheTables::new();
    let mut identity = m31(TargetSource::Resolved);
    identity.aliases = vec![
        ResolvedAlias::new("NGC 224", AliasKind::Designation),
        ResolvedAlias::new("ngc224", AliasKind::CommonName),
    ];
    let (id, _) = cache.upsert(&identity, ns()).unwrap();
    let got = cache.get_by_id(id).unwrap();
    let names: Vec<&str> = got.aliases.iter().map(|a| a.alias.as_str()).collect();
    assert_eq!(names, vec!["M 31", "NGC 224"], "one alias for each normalized form");
}

#[test]
fn primary_designation_is_stored_as_a_designation_whatever_else_it_is() {
    let mut vega = m31(TargetSource::Resolved);
    vega.primary_designation = "Vega".to_owned();
    vega.aliases = vec![
        ResolvedAlias::new("vega", AliasKind::CommonName),
        ResolvedAlias::new("HD 172167", AliasKind::Designation),
    ];
    let mut cache = CacheTables::new();
    let (id, _) = cache.upsert(&vega, ns()).unwrap();
    let names = cache.get_by_id(id).unwrap().aliases;
    assert_eq!(
        names,
        vec![
            ResolvedAlias::new("HD 172167", AliasKind::Designation),
            ResolvedAlias::new("Vega", AliasKind::Designation),
        ]
    );

    vega.aliases = vec![
        ResolvedAlias::new("VEGA", AliasKind::User),
        ResolvedAlias::new("vega", AliasKind::Designation),
        ResolvedAlias::new("Vega", AliasKind::CommonName),
        ResolvedAlias::new("Alpha Lyrae", AliasKind::CommonName),
    ];
    cache.upsert(&vega, ns()).unwrap();
    let names = cache.get_by_id(id).unwrap().aliases;
    assert_eq!(
        names,
        vec![
            ResolvedAlias::new("Alpha Lyrae", AliasKind::CommonName),
            ResolvedAlias::new("vega", AliasKind::Designation),
        ],
        "the identity's own spelling of the designation stays"
    );
}

#[test]
fn rows_are_overwritten_whatever_their_source() {
    let mut cache = seeded();
    cache.upsert(&m31(TargetSource::UserOverride), ns()).unwrap();
    let id = cache.get_by_simbad_oid(1_575_544).unwrap().unwrap().id;
    let other = cache.get_by_simbad_oid(3_456_789).unwrap().unwrap();
    let mut seed = m31(TargetSource::Seed);
    seed.common_name = None;
    seed.aliases.truncate(1);
    cache.overwrite(id, &seed);
    let now = cache.get_by_id(id).unwrap();
    assert_eq!(now.source, TargetSource::Seed);
    assert_eq!(now.common_name, None);
    assert_eq!(now.aliases, vec![ResolvedAlias::new("M 31", AliasKind::Designation)]);
    assert_eq!(cache.get_by_id(other.id).unwrap(), other);
    assert_eq!(cache.list().unwrap().len(), 2);
}

#[test]
fn stores_with_one_object_id_in_two_rows_are_read_back() {
    let u = Upsert::draw(&m31(TargetSource::Resolved));
    let ids = ["00000000-0000-0000-0000-000000000001", "00000000-0000-0000-0000-000000000002"];
    let rows = ids
        .iter()
        .map(|id| TargetRow::from_identity(id, &u.identity, &u.resolved_at))
        .collect();
    let mut cache = CacheTables::load(rows, Vec::new());
    let mut again = m31(TargetSource::Resolved);
    again.common_name = Some("Great Nebula".to_owned());
    let (id, outcome) = cache.upsert(&again, ns()).unwrap();
    assert_eq!((id, outcome), (1, UpsertOutcome::Updated));
    let t = cache.get_by_id(1).unwrap();
    assert_eq!(t.common_name.as_deref(), Some("Great Nebula"));
    let names: Vec<&str> = t.aliases.iter().map(|a| a.alias.as_str()).collect();
    assert_eq!(names, vec!["Andromeda Galaxy", "M 31", "NGC 224"]);
    assert!(cache.get_by_id(2).unwrap().aliases.is_empty());
}

#[test]
fn writes_are_stamped_with_the_present_time() {
    let mut cache = CacheTables::new();
    let (id, _) = cache.upsert(&m31(TargetSource::Seed), ns()).unwrap();
    let at = cache.get_by_id(id).unwrap().resolved_at;
    assert!(at.ends_with('Z'), "{at}");
    assert_eq!(at.as_bytes()[4], b'-');
    assert_eq!(at.as_bytes()[10], b'T');
}

#[test]
fn new_rows_get_the_id_of_their_designation() {
    let mut cache = CacheTables::new();
    let (id, _) = cache.upsert(&m31(TargetSource::Seed), ns()).unwrap();
    let (other, _) = CacheTables::new().upsert(&m31(TargetSource::Seed), ns()).unwrap();
    assert_eq!(id, other, "ids do not depend on the store");
    let (elsewhere, _) = CacheTables::new().upsert(&m31(TargetSource::Seed), ns() ^ 1).unwrap();
    assert_ne!(id, elsewhere, "ids depend on the namespace");
}

#[test]
fn ids_that_are_no_uuids_are_refused() {
    let mut row = TargetRow::from_identity("not-a-uuid", &m31(TargetSource::Seed), "t");
    row.simbad_oid = Some(7);
    let alias = AliasRow {
        alias_id: "x".to_owned(),
        target_id: "not-a-uuid".to_owned(),
        alias: ResolvedAlias::new("M 31", AliasKind::Designation),
    };
    let mut cache = CacheTables::load(vec![row], vec![alias]);
    assert!(matches!(
        cache.get_by_simbad_oid(7),
        Err(CacheError::InvalidUuid(key, _)) if key == "not-a-uuid"
    ));
    assert!(matches!(cache.get_by_normalized("m 31"), Err(CacheError::InvalidUuid(_, _))));
    assert!(matches!(cache.list(), Err(CacheError::InvalidUuid(_, _))));
    assert!(matches!(cache.search("M 31", 5), Err(CacheError::InvalidUuid(_, _))));
    let mut again = m31(TargetSource::Resolved);
    again.simbad_oid = Some(7);
    assert!(matches!(cache.upsert(&again, ns()), Err(CacheError::InvalidUuid(_, _))));
    assert!(cache.take_changes().is_empty(), "nothing was written");
}

#[test]
fn changes_rebuild_the_tables() {
    let mut cache = seeded();
    let (id, _) = cache.upsert(&m31(TargetSource::UserOverride), ns()).unwrap();
    assert!(cache.add_user_alias(id, "My Andromeda"));
    let user = alias_id_of(&cache, "My Andromeda");
    assert!(cache.remove_user_alias(&user));

    let mut targets: Vec<TargetRow> = Vec::new();
    let mut aliases: Vec<AliasRow> = Vec::new();
    for change in cache.take_changes() {
        match change {
            CacheChange::PutTarget(row) => targets.push(row),
            CacheChange::PutAlias(row) => aliases.push(row),
            CacheChange::RemoveAlias(key) => aliases.retain(|row| row.alias_id != key),
        }
    }
    let rebuilt = CacheTables::load(targets, aliases);
    assert_eq!(rebuilt.list().unwrap(), cache.list().unwrap());
    assert!(cache.take_changes().is_empty());
}

// ── Batches ──────────────────────────────────────────────────────────────────

#[test]
fn upsert_batch_inserts_then_dedups_like_sequential_upsert() {
    let mut cache = CacheTables::new();
    let identities = vec![m31(TargetSource::Resolved), m101()];

    let inserted = cache.upsert_batch(&identities, ns()).unwrap();
    assert_eq!(inserted.len(), 2);
    assert_eq!(inserted[0].1, UpsertOutcome::Inserted);
    assert_eq!(inserted[1].1, UpsertOutcome::Inserted);
    assert_eq!(cache.list().unwrap().len(), 2);

    let updated = cache.upsert_batch(&identities, ns()).unwrap();
    assert_eq!(updated[0], (inserted[0].0, UpsertOutcome::Updated));
    assert_eq!(updated[1], (inserted[1].0, UpsertOutcome::Updated));
    assert_eq!(cache.list().unwrap().len(), 2, "batch dedup must not duplicate rows");
}

#[test]
fn upsert_batch_matches_sequential_upsert_semantics() {
    let ns = namespace("redb.tests.batch-semantics");
    let mut cache = CacheTables::new();
    let (override_id, _) = cache.upsert(&m31(TargetSource::Resolved), ns).unwrap();
    let mut user_override = m31(TargetSource::UserOverride);
    user_override.primary_designation = "My Andromeda".to_owned();
    cache.upsert(&user_override, ns).unwrap();

    let mut reseed = m31(TargetSource::Resolved);
    reseed.primary_designation = "WRONG".to_owned();
    let mut other = distinct_identities("Batch Target", 9_000_000, 1).remove(0);
    let batch = vec![other.clone(), reseed.clone()];
    let outcomes = cache.upsert_batch(&batch, ns).unwrap();
    assert_eq!(outcomes[1].0, override_id);
    assert_eq!(outcomes[1].1, UpsertOutcome::SkippedUserOverride);
    let got = cache.get_by_id(override_id).unwrap();
    assert_eq!(got.primary_designation, "My Andromeda", "user override stays sticky");

    other.simbad_oid = None;
    other.primary_designation = "Repeat Target".to_owned();
    let mut again = other.clone();
    again.dec_deg = double(12.5);
    let batch2 = vec![other.clone(), again];
    let outcomes2 = cache.upsert_batch(&batch2, ns).unwrap();
    assert_eq!(outcomes2[0].1, UpsertOutcome::Inserted, "first-ever row for this designation");
    assert_eq!(outcomes2[1].1, UpsertOutcome::Updated, "dedups against entry 0 of this batch");
    assert_eq!(outcomes2[0].0, outcomes2[1].0, "same derived id, same row");
    let got2 = cache.get_by_id(outcomes2[1].0).unwrap();
    assert_eq!(got2.dec_deg, double(12.5), "batch entry 1's value won");
}

#[test]
fn upsert_batch_of_ten_thousand_completes_well_under_a_generous_bound() {
    let identities = distinct_identities("Perf Guard Target", 1_000_000, 10_000);
    let mut cache = CacheTables::new();
    let started = std::time::Instant::now();
    let results = cache.upsert_batch(&identities, ns()).unwrap();
    let elapsed = started.elapsed();
    assert_eq!(results.len(), 10_000);
    assert!(
        elapsed < std::time::Duration::from_secs(30),
        "10k-entry upsert_batch took {elapsed:?}, expected well under 30s"
    );
}

#[test]
fn batches_follow_object_ids_that_move() {
    let mut a = m31(TargetSource::Seed);
    a.simbad_oid = Some(1);
    let mut b = a.clone();
    b.simbad_oid = Some(2);
    let mut c = m101();
    c.simbad_oid = Some(1);
    let batch = vec![a, b, c];

    let mut batched = CacheTables::new();
    let results = batched.upsert_batch(&batch, ns()).unwrap();
    let mut sequential = CacheTables::new();
    let one_by_one: Vec<(u128, UpsertOutcome)> =
        batch.iter().map(|i| sequential.upsert(i, ns()).unwrap()).collect();
    assert_eq!(results, one_by_one);
    assert_eq!(batched.list().unwrap().len(), sequential.list().unwrap().len());
}

#[test]
fn a_refused_batch_leaves_the_store_untouched() {
    let mut row = TargetRow::from_identity("not-a-uuid", &m31(TargetSource::Seed), "t");
    row.simbad_oid = Some(7);
    let mut cache = CacheTables::load(vec![row], Vec::new());
    let mut bad = m31(TargetSource::Resolved);
    bad.simbad_oid = Some(7);
    let batch = vec![m101(), bad];
    assert!(matches!(cache.upsert_batch(&batch, ns()), Err(CacheError::InvalidUuid(_, _))));
    assert_eq!(cache.targets().len(), 1);
    assert_eq!(cache.aliases().len(), 0);
    assert!(cache.take_changes().is_empty());
}

// ── Search ───────────────────────────────────────────────────────────────────

#[test]
fn search_blank_query_is_empty() {
    let cache = seeded();
    assert!(cache.search("   ", 20).unwrap().is_empty());
    assert!(cache.search("M31", 0).unwrap().is_empty());
}

#[test]
fn search_exact_match_ranks_first() {
    let cache = seeded();
    let hits = cache.search("NGC 5457", 20).unwrap();
    assert_eq!(hits.len(), 1);
    assert_eq!(hits[0].rank, RANK_EXACT);
    assert_eq!(hits[0].target.primary_designation, "M 101");
    assert_eq!(hits[0].matched_alias, "NGC 5457");
}

#[test]
fn search_prefix_matches_both_ngc() {
    let cache = seeded();
    let hits = cache.search("NGC", 20).unwrap();
    assert_eq!(hits.len(), 2);
    assert!(hits.iter().all(|h| h.rank == RANK_PREFIX));
}

#[test]
fn search_substring_matches_common_name() {
    let cache = seeded();
    let hits = cache.search("galaxy", 20).unwrap();
    assert_eq!(hits.len(), 2);
    assert!(hits.iter().all(|h| h.rank == RANK_SUBSTRING));
}

#[test]
fn search_dedupes_one_hit_per_target() {
    let mut cache = CacheTables::new();
    let mut t = m31(TargetSource::Resolved);
    t.aliases = vec![
        ResolvedAlias::new("Andromeda", AliasKind::CommonName),
        ResolvedAlias::new("Andromeda Galaxy", AliasKind::CommonName),
    ];
    cache.upsert(&t, ns()).unwrap();

    let hits = cache.search("andromeda", 20).unwrap();
    assert_eq!(hits.len(), 1, "one canonical target despite two matching aliases");
    assert_eq!(hits[0].rank, RANK_EXACT);
    assert_eq!(hits[0].matched_alias, "Andromeda");
}

#[test]
fn search_respects_limit() {
    let cache = seeded();
    let hits = cache.search("galaxy", 1).unwrap();
    assert_eq!(hits.len(), 1);
}

#[test]
fn search_like_wildcards_are_literal() {
    let cache = seeded();
    assert!(cache.search("%", 20).unwrap().is_empty());
    assert!(cache.search("_", 20).unwrap().is_empty());
}

#[test]
fn search_puts_better_ranks_first() {
    let mut cache = CacheTables::new();
    let mut exact = m31(TargetSource::Seed);
    exact.simbad_oid = Some(1);
    exact.primary_designation = "Z 1".to_owned();
    exact.aliases = vec![ResolvedAlias::new("Crab", AliasKind::CommonName)];
    let mut prefix = exact.clone();
    prefix.simbad_oid = Some(2);
    prefix.primary_designation = "B 1".to_owned();
    prefix.aliases = vec![ResolvedAlias::new("Crab Nebula", AliasKind::CommonName)];
    let mut part = exact.clone();
    part.simbad_oid = Some(3);
    part.primary_designation = "A 1".to_owned();
    part.aliases = vec![ResolvedAlias::new("The Crab", AliasKind::CommonName)];
    cache.upsert_batch(&vec![part, prefix, exact], ns()).unwrap();

    let hits = cache.search("crab", 10).unwrap();
    let names: Vec<&str> = hits.iter().map(|h| h.target.primary_designation.as_str()).collect();
    assert_eq!(names, vec!["Z 1", "B 1", "A 1"]);
    let ranks: Vec<u8> = hits.iter().map(|h| h.rank).collect();
    assert_eq!(ranks, vec![RANK_EXACT, RANK_PREFIX, RANK_SUBSTRING]);
}

// ── User aliases ─────────────────────────────────────────────────────────────

#[test]
fn search_orders_by_rank_then_length_then_alias() {
    let mut cache = CacheTables::new();
    for (oid, name) in [(1, "NGC 22 B"), (2, "NGC 22 A"), (3, "NGC 22"), (4, "X NGC 22")] {
        let mut identity = m101();
        identity.simbad_oid = Some(oid);
        identity.primary_designation = name.to_owned();
        identity.aliases = Vec::new();
        cache.upsert(&identity, ns()).unwrap();
    }
    cache.add_user_alias(7, "NGC 22 C");
    let hits = cache.search("ngc 22", 10).unwrap();
    let shown: Vec<(&str, u8)> = hits.iter().map(|h| (h.matched_alias.as_str(), h.rank)).collect();
    assert_eq!(
        shown,
        vec![
            ("NGC 22", RANK_EXACT),
            ("NGC 22 A", RANK_PREFIX),
            ("NGC 22 B", RANK_PREFIX),
            ("X NGC 22", RANK_SUBSTRING),
        ],
        "an alias without a stored target is no hit"
    );
}

#[test]
fn add_user_alias_is_idempotent() {
    let mut cache = CacheTables::new();
    let (id, _) = cache.upsert(&m31(TargetSource::Resolved), ns()).unwrap();

    assert!(cache.add_user_alias(id, "M31 favorite"));
    assert!(!cache.add_user_alias(id, "M31 favorite"), "idempotent re-add");

    let got = cache.get_by_id(id).unwrap();
    assert_eq!(got.aliases.len(), 4);
    assert!(got.aliases.iter().any(|a| a.kind == AliasKind::User && a.alias == "M31 favorite"));
}

#[test]
fn add_user_alias_rejects_blank_alias() {
    let mut cache = CacheTables::new();
    let (id, _) = cache.upsert(&m31(TargetSource::Resolved), ns()).unwrap();
    assert!(!cache.add_user_alias(id, "   "));
    assert!(!cache.add_user_alias(id, ""));
    let got = cache.get_by_id(id).unwrap();
    assert!(got.aliases.iter().all(|a| a.kind != AliasKind::User));
}

#[test]
fn remove_user_alias_missing_id_returns_false() {
    let mut cache = CacheTables::new();
    assert!(!cache.remove_user_alias("no-such-id"));
}

#[test]
fn remove_user_alias_only_removes_user_kind() {
    let mut cache = CacheTables::new();
    let ns = namespace("redb.tests");
    let (id, _) = cache.upsert(&m31(TargetSource::Resolved), ns).unwrap();
    cache.add_user_alias(id, "M31 favorite");

    let user_alias_id = alias_id_of(&cache, "M31 favorite");
    assert!(cache.remove_user_alias(&user_alias_id));
    assert_eq!(cache.get_by_id(id).unwrap().aliases.len(), 3);

    let designation_id = alias_id_of(&cache, "M 31");
    assert!(!cache.remove_user_alias(&designation_id));
    assert_eq!(cache.get_by_id(id).unwrap().aliases.len(), 3);
}

#[test]
fn user_aliases_are_found_like_others() {
    let mut cache = CacheTables::new();
    let (id, _) = cache.upsert(&m31(TargetSource::Resolved), ns()).unwrap();
    assert!(cache.add_user_alias(id, "My Galaxy"));
    assert_eq!(cache.get_by_normalized(&normalize("my  galaxy")).unwrap().unwrap().id, id);
    assert!(!cache.add_user_alias(id, "NGC224"), "the form is there already");
}

// ── Lists ────────────────────────────────────────────────────────────────────

#[test]
fn list_orders_by_primary_designation() {
    let rows = seeded().list().unwrap();
    assert_eq!(rows.len(), 2);
    assert_eq!(rows[0].primary_designation, "M 101");
    assert_eq!(rows[1].primary_designation, "M 31");
}

#[test]
fn list_carries_aliases_for_resolved_target() {
    let mut cache = CacheTables::new();
    cache.upsert(&m31(TargetSource::Resolved), ns()).unwrap();
    let rows = cache.list().unwrap();
    assert_eq!(rows.len(), 1);
    assert_eq!(rows[0].primary_designation, "M 31");
    assert_eq!(rows[0].aliases.len(), 3);
}

#[test]
fn list_aliases_do_not_cross_contaminate() {
    let rows = seeded().list().unwrap();
    assert_eq!(rows.len(), 2);

    let m31_row = rows.iter().find(|r| r.primary_designation == "M 31").unwrap();
    let m101_row = rows.iter().find(|r| r.primary_designation == "M 101").unwrap();
    assert_eq!(m31_row.aliases.len(), 3);
    assert_eq!(m101_row.aliases.len(), 3);
    assert!(!m31_row.aliases.iter().any(|a| a.alias == "NGC 5457"));
    assert!(!m101_row.aliases.iter().any(|a| a.alias == "NGC 224"));
}
