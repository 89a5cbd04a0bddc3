//! Cache-first resolution, overrides, search and draining.

use simbad_resolver::batch::{next_claim, record, verdict_for, DrainRounds};
use simbad_resolver::flow::{ResolveEvent, ResolveFlow, ResolveStep};
use simbad_resolver::identity::namespace;
use simbad_resolver::normalize::normalize;
use simbad_resolver::orchestrate::{
    alias_overlaps, answer_failure, answer_offline, bind_alias, fuzzy_fill, plan_resolve,
    reason_for, settle,
};
use simbad_resolver::{
    drain, AliasKind, CacheTables, CachedTarget, Double, DrainSummary, FakeResolver, FileCache,
    ObjectType, OfflineResolver, PendingState, PositionMatch, QueueTables, Resolution, ResolveError,
    ResolvedAlias, ResolvedIdentity, ResolverConfig, SearchHit, SimbadResolver, Single,
    TargetRow, TargetSource, UnresolvedReason, Upsert, Verdict, RANK_EXACT, RANK_FUZZY,
};

fn double(x: f64) -> Double {
    Double { bits: x.to_bits() }
}

fn single(x: f32) -> Single {
    Single { bits: x.to_bits() }
}

fn m31() -> ResolvedIdentity {
    ResolvedIdentity {
        simbad_oid: Some(1_575_544),
        primary_designation: "M 31".to_owned(),
        common_name: Some("Andromeda Galaxy".to_owned()),
        object_type: ObjectType::Galaxy,
        otype_raw: "G".to_owned(),
        ra_deg: double(10.684_708),
        dec_deg: double(41.268_75),
        v_mag: Some(double(3.44)),
        galdim_majaxis_arcmin: Some(double(199.53)),
        galdim_minaxis_arcmin: Some(double(70.79)),
        galdim_angle_deg: Some(35),
        aliases: vec![
            ResolvedAlias::new("M 31", AliasKind::Designation),
            ResolvedAlias::new("NGC 224", AliasKind::Designation),
            ResolvedAlias::new("Andromeda Galaxy", AliasKind::CommonName),
        ],
        source: TargetSource::Resolved,
    }
}

fn named(oid: i64, primary: &str, names: &[&str]) -> ResolvedIdentity {
    ResolvedIdentity {
        simbad_oid: Some(oid),
        primary_designation: primary.to_owned(),
        common_name: None,
        object_type: ObjectType::Other,
        otype_raw: String::new(),
        ra_deg: double(0.0),
        dec_deg: double(0.0),
        v_mag: None,
        galdim_majaxis_arcmin: None,
        galdim_minaxis_arcmin: None,
        galdim_angle_deg: None,
        aliases: names.iter().map(|n| ResolvedAlias::new(n, AliasKind::CommonName)).collect(),
        source: TargetSource::Resolved,
    }
}

fn config() -> ResolverConfig {
    ResolverConfig::new("test.targets")
}

fn facade(resolver: FakeResolver) -> SimbadResolver<FakeResolver> {
    SimbadResolver::new(resolver, CacheTables::new(), config())
}

fn resolved(r: Resolution) -> CachedTarget {
    match r {
        Resolution::Resolved(t) => t,
        Resolution::Unresolved { query, reason } => panic!("{query} is unresolved: {reason:?}"),
    }
}

fn reason(r: Resolution) -> UnresolvedReason {
    match r {
        Resolution::Unresolved { reason, .. } => reason,
        Resolution::Resolved(t) => panic!("expected unresolved, got {t:?}"),
    }
}

/// Search with the token-set similarity of every alias.
fn search<R>(f: &SimbadResolver<R>, query: &str, limit: usize) -> Vec<SearchHit> {
    let q = normalize(query);
    let scores: Vec<Vec<Single>> = f
        .cache()
        .list()
        .unwrap()
        .iter()
        .map(|target| {
            alias_overlaps(&q, target)
                .iter()
                .map(|(shared, all)| {
                    single(if *all == 0 { 0.0 } else { *shared as f32 / *all as f32 })
                })
                .collect()
        })
        .collect();
    f.search(query, limit, &scores).unwrap()
}

#[test]
fn resolves_and_caches_dedup_by_alias() {
    let mut f = facade(FakeResolver::new().with_response("M 31", m31()));
    let t = resolved(f.resolve("M31").unwrap());
    assert_eq!(t.primary_designation, "M 31");
    assert_eq!(t.object_type, ObjectType::Galaxy);
    assert_eq!(t.otype_raw, "G");

    let t2 = resolved(f.resolve("NGC 224").unwrap());
    assert_eq!(t2.id, t.id, "aliases collapse onto one canonical target");
    assert_eq!(f.resolver().call_count(), 1, "second resolve served from cache");
}

#[test]
fn unknown_query_is_unresolved_unknown() {
    let mut f = facade(FakeResolver::new());
    assert_eq!(
        reason(f.resolve("definitely-not-an-object").unwrap()),
        UnresolvedReason::Unknown
    );
}

#[test]
fn ambiguous_query_is_unresolved_ambiguous() {
    let mut f = facade(FakeResolver::new().with_error(
        "cluster",
        ResolveError::Ambiguous { query: "cluster".to_owned(), count: 3 },
    ));
    assert_eq!(reason(f.resolve("cluster").unwrap()), UnresolvedReason::Ambiguous);
}

#[test]
fn transient_failure_degrades_to_offline() {
    let mut f =
        facade(FakeResolver::new().with_default_error(ResolveError::Network("down".to_owned())));
    assert_eq!(reason(f.resolve("M 31").unwrap()), UnresolvedReason::Offline);
}

#[test]
fn offline_resolver_leaves_queries_unresolved() {
    let mut f = SimbadResolver::new(OfflineResolver, CacheTables::new(), config());
    assert_eq!(
        f.resolve("M31").unwrap(),
        Resolution::Unresolved { query: "M31".to_owned(), reason: UnresolvedReason::Offline }
    );
}

#[test]
fn online_disabled_never_calls_resolver_but_cache_still_works() {
    let mut online = facade(FakeResolver::new().with_response("M 31", m31()));
    online.resolve("M 31").unwrap();
    let mut cache = CacheTables::new();
    std::mem::swap(&mut cache, online.cache_mut());

    let offline_resolver = FakeResolver::new().with_response("M 31", m31());
    let mut offline = SimbadResolver::new(offline_resolver, cache, config().with_online(false));
    assert!(matches!(offline.resolve("NGC 224").unwrap(), Resolution::Resolved(_)));
    assert_eq!(reason(offline.resolve("unknown").unwrap()), UnresolvedReason::Offline);
    assert_eq!(offline.resolver().call_count(), 0, "online disabled: no resolver calls");
}

#[test]
fn apply_override_is_sticky_user_override() {
    let mut f = facade(FakeResolver::new().with_response("M 31", m31()));
    let t = resolved(f.resolve("M 31").unwrap());
    assert_eq!(t.source, TargetSource::Resolved);

    let overridden = f.apply_override(t.id, "My Andromeda").unwrap().unwrap();
    assert_eq!(overridden.source, TargetSource::UserOverride);
    assert!(overridden.aliases.iter().any(|a| a.alias == "My Andromeda"));
    assert_eq!(overridden.id, t.id);

    assert!(f.apply_override(uuid::Uuid::new_v4().as_u128(), "x").unwrap().is_none());
}

#[test]
fn overrides_survive_later_answers_and_blank_names_add_nothing() {
    let mut f = facade(FakeResolver::new().with_response("M 31", m31()));
    let t = resolved(f.resolve("M 31").unwrap());
    let pinned = f.apply_override(t.id, "  ").unwrap().unwrap();
    assert_eq!(pinned.aliases.len(), 3);
    let again = f.apply_override(t.id, "M 31").unwrap().unwrap();
    assert_eq!(again.aliases.len(), 3);

    let mut other = m31();
    other.primary_designation = "WRONG".to_owned();
    let namespace = config().namespace;
    f.cache_mut().upsert(&other, namespace).unwrap();
    let kept = f.cache().get_by_id(t.id).unwrap();
    assert_eq!(kept.primary_designation, "M 31");
    assert_eq!(kept.source, TargetSource::UserOverride);
}

#[test]
fn overrides_go_to_the_row_of_the_target() {
    let mut f = facade(FakeResolver::new());
    let mut plain = m31();
    plain.simbad_oid = None;
    let elsewhere = namespace("other.targets");
    let (id, _) = f.cache_mut().upsert(&plain, elsewhere).unwrap();
    let was = f.cache().get_by_id(id).unwrap();
    let now = f.apply_override(id, "My Andromeda").unwrap().unwrap();
    assert_eq!(now.id, id);
    assert_eq!(now.source, TargetSource::UserOverride);
    assert_eq!(now.simbad_oid, None);
    assert_eq!(now.primary_designation, was.primary_designation);
    assert_eq!(now.common_name, was.common_name);
    assert_eq!(now.object_type, was.object_type);
    assert!(was.aliases.iter().all(|a| now.aliases.contains(a)));
    assert!(now.aliases.contains(&ResolvedAlias::new("My Andromeda", AliasKind::User)));
    assert_eq!(f.cache().list().unwrap().len(), 1, "no second row");
}

#[test]
fn overrides_leave_other_rows_with_the_object_id_alone() {
    let u = Upsert::draw(&m31());
    let ids = ["00000000-0000-0000-0000-000000000001", "00000000-0000-0000-0000-000000000002"];
    let rows = ids
        .iter()
        .map(|id| TargetRow::from_identity(id, &u.identity, &u.resolved_at))
        .collect();
    let cache = CacheTables::load(rows, Vec::new());
    let mut f = SimbadResolver::new(FakeResolver::new(), cache, config());
    let now = f.apply_override(2, "mine").unwrap().unwrap();
    assert_eq!(now.id, 2);
    assert_eq!(now.source, TargetSource::UserOverride);
    assert_eq!(f.cache().get_by_id(1).unwrap().source, TargetSource::Resolved);
}

#[test]
fn every_name_of_a_resolved_target_leads_back_to_it() {
    let mut pinned = m31();
    pinned.primary_designation = "Andromeda".to_owned();
    pinned.source = TargetSource::UserOverride;
    pinned.aliases = vec![ResolvedAlias::new("My Galaxy", AliasKind::User)];
    let mut f = facade(FakeResolver::new().with_response("M 31", m31()));
    let namespace = config().namespace;
    f.cache_mut().upsert(&pinned, namespace).unwrap();
    let t = resolved(f.resolve("M 31").unwrap());
    assert_eq!(t.primary_designation, "Andromeda", "the answer does not replace the override");
    assert_eq!(f.resolver().call_count(), 1);
    for a in &t.aliases {
        assert_eq!(resolved(f.resolve(&a.alias).unwrap()).id, t.id, "{}", a.alias);
    }
    assert_eq!(f.resolver().call_count(), 1);

    let mut g = facade(FakeResolver::new().with_response("M 31", m31()));
    let t = resolved(g.resolve("M 31").unwrap());
    for name in ["m31", "NGC  224", "andromeda galaxy"] {
        assert_eq!(resolved(g.resolve(name).unwrap()).id, t.id, "{name}");
    }
    assert_eq!(g.resolver().call_count(), 1);
}

#[test]
fn fuzzy_hits_show_each_target_once() {
    let mut f = SimbadResolver::new(
        OfflineResolver,
        CacheTables::new(),
        config().with_fuzzy(single(0.3)),
    );
    let ns = config().namespace;
    f.cache_mut()
        .upsert(&named(1, "A 1", &["Great Nebula Orion", "Orion Great Nebula"]), ns)
        .unwrap();
    f.cache_mut().upsert(&named(2, "A 2", &["Nebula Great", "Great Orion"]), ns).unwrap();
    let hits = search(&f, "great nebula", 10);
    let mut ids: Vec<u128> = hits.iter().map(|h| h.target.id).collect();
    assert_eq!(ids.len(), 2);
    ids.dedup();
    assert_eq!(ids.len(), 2);
    assert_ne!(hits[0].rank, RANK_FUZZY);
    assert_eq!(hits[1].rank, RANK_FUZZY);
    assert_eq!(search(&f, "great nebula", 1).len(), 1);
}

#[test]
fn searches_are_filled_up_only_where_there_is_room() {
    let on = config().with_fuzzy(single(0.5));
    assert_eq!(fuzzy_fill(&on, "M 31", 0, 1), Some(single(0.5)));
    assert_eq!(fuzzy_fill(&on, "M 31", 1, 1), None);
    assert_eq!(fuzzy_fill(&on, "%_", 0, 1), None);
    assert_eq!(fuzzy_fill(&config(), "M 31", 0, 1), None);
}

#[test]
fn flows_ask_for_one_thing_at_a_time() {
    let step = ResolveFlow::start("C 14", true);
    let ResolveStep::Do(flow) = step else { panic!("nothing to do") };
    assert!(matches!(&flow, ResolveFlow::LookUp { key, at: 0, .. } if key == "c 14"));
    let ResolveStep::Do(flow) = flow.advance(ResolveEvent::Found(None)) else {
        panic!("nothing to do")
    };
    assert!(matches!(&flow, ResolveFlow::LookUp { key, at: 1, .. } if key == "ngc 869"));
    let ResolveStep::Do(flow) = flow.advance(ResolveEvent::Stored(7)) else {
        panic!("nothing to do")
    };
    assert!(matches!(&flow, ResolveFlow::LookUp { at: 1, .. }), "it still waits");
    let ResolveStep::Do(flow) = flow.advance(ResolveEvent::Found(None)) else {
        panic!("nothing to do")
    };
    assert!(matches!(&flow, ResolveFlow::Ask { plan } if plan.simbad_query == "NGC 869"));
    let answer = named(10_001, "NGC 869", &[]);
    let ResolveStep::Do(flow) = flow.advance(ResolveEvent::Answered(Ok(answer))) else {
        panic!("nothing to do")
    };
    let ResolveFlow::Store { identity, .. } = &flow else { panic!("nothing to store") };
    assert_eq!(identity.aliases, vec![ResolvedAlias::new("C 14", AliasKind::Designation)]);
    let ResolveStep::Do(flow) = flow.advance(ResolveEvent::Stored(7)) else {
        panic!("nothing to do")
    };
    assert!(matches!(&flow, ResolveFlow::Read { id: 7, .. }));
    let ResolveStep::Finish(r) = flow.advance(ResolveEvent::Found(None)) else {
        panic!("not done")
    };
    assert_eq!(reason(r), UnresolvedReason::Unknown);
}

#[test]
fn flows_end_early() {
    let ResolveStep::Finish(r) = ResolveFlow::start("C 99", true) else { panic!("not done") };
    assert_eq!(reason(r), UnresolvedReason::Unknown);
    let ResolveStep::Finish(r) = ResolveFlow::start("", false) else { panic!("not done") };
    assert_eq!(reason(r), UnresolvedReason::Offline);
    let ResolveStep::Do(flow) = ResolveFlow::start("", true) else { panic!("nothing to do") };
    let failed = ResolveEvent::Answered(Err(ResolveError::Timeout(30)));
    let ResolveStep::Finish(r) = flow.advance(failed) else { panic!("not done") };
    assert_eq!(reason(r), UnresolvedReason::Offline);
    let mut f = facade(FakeResolver::new().with_response("M 31", m31()));
    let t = resolved(f.resolve("M 31").unwrap());
    let ResolveStep::Do(flow) = ResolveFlow::start("M 31", true) else { panic!("nothing to do") };
    let found = ResolveEvent::Found(f.cache().get_by_id(t.id));
    let ResolveStep::Finish(r) = flow.advance(found) else { panic!("not done") };
    assert_eq!(resolved(r), t);
}

#[test]
fn rounds_claim_beyond_what_was_put_back() {
    assert_eq!(next_claim(16, 0), 16);
    assert_eq!(next_claim(2, 3), 5);
    assert_eq!(next_claim(2, usize::MAX - 1), usize::MAX);
    assert_eq!(DrainRounds::new(0).claim(), 1);

    let mut queue = QueueTables::new();
    for id in ["a", "b", "c"] {
        queue.enqueue(id, "M 1");
    }
    let offline =
        Resolution::Unresolved { query: "M 1".to_owned(), reason: UnresolvedReason::Offline };
    let mut rounds = DrainRounds::new(2);
    let mut seen = Vec::new();
    loop {
        let items = rounds.take(&queue.claim_pending(rounds.claim()).unwrap());
        if items.is_empty() {
            break;
        }
        seen.push(items.iter().map(|item| item.id.clone()).collect::<Vec<_>>());
        for item in &items {
            let verdict = rounds.judge(&offline);
            record(&mut queue, &item.id, verdict);
        }
    }
    assert_eq!(seen, vec![vec!["a", "b"], vec!["c"]]);
    assert_eq!(
        rounds.summary(),
        DrainSummary { resolved: 0, unresolved: 0, still_pending: 3 }
    );
    assert_eq!(queue.pending_count(), 3);
}

#[test]
fn caldwell_query_translates_and_binds_alias() {
    let mut ngc869 = named(10_001, "NGC 869", &[]);
    ngc869.common_name = Some("Double Cluster".to_owned());
    ngc869.object_type = ObjectType::OpenCluster;
    ngc869.otype_raw = "OpC".to_owned();
    ngc869.aliases = vec![ResolvedAlias::new("NGC 869", AliasKind::Designation)];
    let mut f = facade(FakeResolver::new().with_response("NGC 869", ngc869));
    let t = resolved(f.resolve("C 14").unwrap());
    assert_eq!(t.primary_designation, "NGC 869");
    assert!(t.aliases.iter().any(|a| a.alias == "C 14"), "original Caldwell bound as alias");
    assert!(matches!(f.resolve("C 14").unwrap(), Resolution::Resolved(_)));
    for spelling in ["c14", " C  14 ", "c\t14"] {
        assert!(matches!(f.resolve(spelling).unwrap(), Resolution::Resolved(_)), "{spelling}");
    }
    assert_eq!(f.resolver().call_count(), 1, "asked for once, however it is spelled");
}

#[test]
fn caldwell_without_a_designation_is_unresolved_unknown() {
    let mut f = facade(FakeResolver::new());
    assert_eq!(reason(f.resolve("C 99").unwrap()), UnresolvedReason::Unknown);
    assert_eq!(f.resolver().call_count(), 0, "no call for an untranslatable Caldwell id");
}

#[test]
fn search_is_network_free_and_delegates_to_cache() {
    let mut f = facade(FakeResolver::new().with_response("M 31", m31()));
    f.resolve("M 31").unwrap();
    assert_eq!(f.resolver().call_count(), 1);

    let hits = search(&f, "andromeda", 10);
    assert!(!hits.is_empty());
    assert!(hits.iter().any(|h| h.target.primary_designation == "M 31"));
    assert_eq!(f.resolver().call_count(), 1, "search performs no network resolution");

    assert!(search(&f, "   ", 10).is_empty());
    assert!(search(&f, "M 31", 0).is_empty());
}

#[test]
fn fuzzy_search_matches_reordered_tokens_when_enabled() {
    let mut f = SimbadResolver::new(
        FakeResolver::new().with_response("M 31", m31()),
        CacheTables::new(),
        config().with_fuzzy(single(0.5)),
    );
    f.resolve("M 31").unwrap();

    let hits = search(&f, "galaxy andromeda", 10);
    assert_eq!(hits.len(), 1, "reordered tokens matched via the fuzzy tier");
    assert_eq!(hits[0].target.primary_designation, "M 31");
    assert_eq!(hits[0].rank, RANK_FUZZY);
    assert_eq!(hits[0].matched_alias, "Andromeda Galaxy");
}

#[test]
fn fuzzy_search_is_off_by_default() {
    let mut f = facade(FakeResolver::new().with_response("M 31", m31()));
    f.resolve("M 31").unwrap();
    assert!(search(&f, "galaxy andromeda", 10).is_empty());
}

#[test]
fn fuzzy_config_does_not_leak_into_resolve() {
    let mut online = facade(FakeResolver::new().with_response("M 31", m31()));
    online.resolve("M 31").unwrap();
    let mut cache = CacheTables::new();
    std::mem::swap(&mut cache, online.cache_mut());

    let mut offline = SimbadResolver::new(
        FakeResolver::new(),
        cache,
        config().with_online(false).with_fuzzy(single(0.1)),
    );
    assert_eq!(reason(offline.resolve("galaxy andromeda").unwrap()), UnresolvedReason::Offline);
    let hits = search(&offline, "galaxy andromeda", 10);
    assert_eq!(hits.len(), 1);
    assert_eq!(hits[0].rank, RANK_FUZZY);
}

#[test]
fn fuzzy_hits_follow_the_others_best_first() {
    let mut cache = CacheTables::new();
    let namespace = config().namespace;
    let batch = vec![
        named(1, "A 1", &["Ring Nebula Old"]),
        named(2, "B 1", &["Nebula Ring"]),
        named(3, "C 1", &["Ring"]),
        named(4, "D 1", &["Ring Nebula"]),
        named(5, "E 1", &["Nebula Ring"]),
        named(6, "F 1", &["Something"]),
    ];
    cache.upsert_batch(&batch, namespace).unwrap();
    let f = SimbadResolver::new(OfflineResolver, cache, config().with_fuzzy(single(0.5)));
    let hits = search(&f, "ring nebula", 10);
    let names: Vec<&str> = hits.iter().map(|h| h.target.primary_designation.as_str()).collect();
    assert_eq!(names, vec!["D 1", "A 1", "B 1", "E 1", "C 1"]);
    assert_eq!(hits[0].rank, RANK_EXACT);
    assert!(hits[2..].iter().all(|h| h.rank == RANK_FUZZY));
    assert_eq!(search(&f, "ring nebula", 3).len(), 3);
}

#[test]
fn outcomes_and_hits_are_cloned() {
    let mut f = facade(FakeResolver::new().with_response("M 31", m31()));
    let found = f.resolve("M 31").unwrap();
    assert_eq!(found.clone(), found);
    let missed = f.resolve("nothing").unwrap();
    assert_eq!(missed.clone(), missed);
    let hits = search(&f, "M 31", 5);
    assert_eq!(hits.clone(), hits);
    let mut queue = QueueTables::new();
    queue.enqueue("a", "M 31");
    let item = queue.get("a").unwrap().unwrap();
    assert_eq!(item.clone(), item);
    let near = PositionMatch { identity: m31(), separation_deg: double(0.5) };
    assert_eq!(near.clone(), near);
    let file = FileCache::new("targets.redb");
    assert_eq!(file.clone().path, file.path);
}

#[test]
fn targets_are_compared_by_their_numbers() {
    let mut a = m31();
    let mut b = m31();
    a.dec_deg = double(0.0);
    b.dec_deg = double(-0.0);
    assert_eq!(a, b);
    b.dec_deg = double(f64::NAN);
    assert_ne!(a, b);
    assert_ne!(b, b.clone());
}

#[test]
fn file_cache_keeps_its_path() {
    let file_cache = FileCache::new("targets.redb");
    assert_eq!(file_cache.path.to_str(), Some("targets.redb"));
}

// ── Steps ────────────────────────────────────────────────────────────────────

#[test]
fn plans_translate_caldwell_designations() {
    let plan = plan_resolve("c 14").unwrap();
    assert_eq!(plan.query, "c 14");
    assert_eq!(plan.simbad_query, "NGC 869");
    assert_eq!(plan.caldwell_alias.as_deref(), Some("C 14"));
    assert_eq!(plan.keys, vec!["c 14".to_owned(), "ngc 869".to_owned()]);

    let other = plan_resolve("M31").unwrap();
    assert_eq!(other.simbad_query, "M31");
    assert_eq!(other.caldwell_alias, None);
    assert_eq!(other.keys, vec!["m 31".to_owned(), "m 31".to_owned()]);
    assert!(plan_resolve("---").unwrap().keys.is_empty());
}

#[test]
fn steps_answer_as_the_facade_does() {
    let plan = plan_resolve("C 14").unwrap();
    assert_eq!(reason(answer_offline(&plan)), UnresolvedReason::Offline);
    assert_eq!(
        reason(answer_failure(&plan, &ResolveError::NotFound("x".to_owned()))),
        UnresolvedReason::Unknown
    );
    assert_eq!(reason(settle(&plan, None)), UnresolvedReason::Unknown);
    let bound = bind_alias(&plan, named(1, "NGC 869", &[]));
    assert_eq!(bound.aliases.len(), 1);
    assert_eq!(bound.aliases[0].alias, "C 14");
    assert_eq!(bound.aliases[0].kind, AliasKind::Designation);
    let again = bind_alias(&plan, bound.clone());
    assert_eq!(again, bound);
}

#[test]
fn reasons_for_every_error() {
    assert_eq!(reason_for(&ResolveError::Network("x".to_owned())), UnresolvedReason::Offline);
    assert_eq!(reason_for(&ResolveError::Timeout(1)), UnresolvedReason::Offline);
    assert_eq!(reason_for(&ResolveError::Disabled), UnresolvedReason::Offline);
    assert_eq!(reason_for(&ResolveError::NotFound("x".to_owned())), UnresolvedReason::Unknown);
    assert_eq!(reason_for(&ResolveError::Parse("x".to_owned())), UnresolvedReason::Unknown);
    assert_eq!(
        reason_for(&ResolveError::Ambiguous { query: "x".to_owned(), count: 2 }),
        UnresolvedReason::Ambiguous
    );
}

// ── Draining ─────────────────────────────────────────────────────────────────

#[test]
fn batch_drain_resolves_misses_and_retries_transient() {
    let mut resolver = FakeResolver::new()
        .with_response("M 31", m31())
        .with_error("timeout-one", ResolveError::Timeout(10));
    let mut cache = CacheTables::new();
    let mut queue = QueueTables::new();
    queue.enqueue("img1", "M 31");
    queue.enqueue("img2", "unknown-object");
    queue.enqueue("img3", "NGC 224");
    queue.enqueue("img4", "timeout-one");

    let summary = drain(&mut resolver, &mut cache, &mut queue, &config()).unwrap();
    assert_eq!(summary.resolved, 2, "img1 (M 31) + img3 (NGC 224 via cache) resolved");
    assert_eq!(summary.unresolved, 1, "img2 unknown");
    assert_eq!(summary.still_pending, 1, "img4 transient");

    let pending = queue.get("img4").unwrap().unwrap();
    assert_eq!(pending.state, PendingState::Pending);
    assert_eq!(pending.attempts, 0, "transient failure does not consume an attempt");

    let unresolved = queue.get("img2").unwrap().unwrap();
    assert_eq!(unresolved.state, PendingState::Unresolved);
    assert_eq!(unresolved.attempts, 1, "content miss consumes an attempt");
    assert_eq!(resolver.call_count(), 3);
}

#[test]
fn batch_drain_spans_multiple_rounds_when_batch_size_is_small() {
    let mut resolver = FakeResolver::new().with_response("M 31", m31());
    let mut cache = CacheTables::new();
    let mut queue = QueueTables::new();
    queue.enqueue("img1", "M 31");
    queue.enqueue("img2", "NGC 224");
    queue.enqueue("img3", "Andromeda Galaxy");

    let mut f = SimbadResolver::new(resolver.clone(), CacheTables::new(), config());
    let mut in_turn = QueueTables::new();
    in_turn.enqueue("img1", "M 31");
    in_turn.enqueue("img2", "NGC 224");
    in_turn.enqueue("img3", "Andromeda Galaxy");
    let mut rounds = DrainRounds::new(0);
    let mut sizes = Vec::new();
    loop {
        let items = rounds.take(&in_turn.claim_pending(rounds.claim()).unwrap());
        if items.is_empty() {
            break;
        }
        sizes.push(items.len());
        for item in items {
            let verdict = rounds.judge(&f.resolve(&item.query).unwrap());
            record(&mut in_turn, &item.id, verdict);
        }
    }
    assert_eq!(sizes, vec![1, 1, 1]);
    let summary = rounds.summary();
    assert_eq!(summary.resolved, 3, "all three drained across single-item rounds");
    assert_eq!(summary.unresolved, 0);
    assert_eq!(summary.still_pending, 0);
    assert_eq!(in_turn.pending_count(), 0);

    let at_once = drain(&mut resolver, &mut cache, &mut queue, &config()).unwrap();
    assert_eq!(at_once, summary);
    assert_eq!(queue.pending_count(), 0);
}

#[test]
fn verdicts_for_every_resolution() {
    let unresolved =
        |reason| Resolution::Unresolved { query: "x".to_owned(), reason };
    assert_eq!(verdict_for(&unresolved(UnresolvedReason::Offline)), Verdict::StillPending);
    assert_eq!(verdict_for(&unresolved(UnresolvedReason::Unknown)), Verdict::Unresolved);
    assert_eq!(verdict_for(&unresolved(UnresolvedReason::Ambiguous)), Verdict::Unresolved);
}
