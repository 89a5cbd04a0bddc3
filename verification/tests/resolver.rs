//! The resolvers that need no service.

use simbad_resolver::{
    AliasKind, Double, FakeResolver, ObjectType, OfflineResolver, PositionMatch, PositionResolver,
    ResolveError, ResolvedAlias, ResolvedIdentity, Resolver, TargetSource,
};

fn double(x: f64) -> Double {
    Double { bits: x.to_bits() }
}

fn sample_identity() -> ResolvedIdentity {
    ResolvedIdentity {
        simbad_oid: Some(1_575_544),
        primary_designation: "M 31".to_owned(),
        common_name: Some("Andromeda Galaxy".to_owned()),
        object_type: ObjectType::Galaxy,
        otype_raw: "G".to_owned(),
        ra_deg: double(10.684_708),
        dec_deg: double(41.268_75),
        v_mag: Some(double(3.44)),
        galdim_majaxis_arcmin: Some(double(199.53)),
        galdim_minaxis_arcmin: Some(double(70.79)),
        galdim_angle_deg: Some(35),
        aliases: vec![
            ResolvedAlias::new("M 31", AliasKind::Designation),
            ResolvedAlias::new("NGC 224", AliasKind::Designation),
            ResolvedAlias::new("Andromeda Galaxy", AliasKind::CommonName),
        ],
        source: TargetSource::Resolved,
    }
}

#[test]
fn fake_resolver_returns_canned_response() {
    let mut resolver = FakeResolver::new().with_response("M31", sample_identity());
    let got = resolver.resolve("M 31").unwrap();
    assert_eq!(got.primary_designation, "M 31");
    assert_eq!(got.object_type, ObjectType::Galaxy);
    assert_eq!(got.otype_raw, "G");
    assert_eq!(got.simbad_oid, Some(1_575_544));
}

#[test]
fn fake_resolver_unknown_is_not_found() {
    let mut resolver = FakeResolver::new();
    let err = resolver.resolve("does-not-exist").unwrap_err();
    assert!(matches!(err, ResolveError::NotFound(_)));
}

#[test]
fn fake_resolver_canned_error() {
    let mut resolver = FakeResolver::new()
        .with_error("M31", ResolveError::Ambiguous { query: "M31".to_owned(), count: 2 });
    let err = resolver.resolve("M 31").unwrap_err();
    assert!(matches!(err, ResolveError::Ambiguous { count: 2, .. }));
}

#[test]
fn fake_resolver_default_error_simulates_offline() {
    let mut resolver =
        FakeResolver::new().with_default_error(ResolveError::Network("down".to_owned()));
    let err = resolver.resolve("anything").unwrap_err();
    assert!(matches!(err, ResolveError::Network(_)));
}

#[test]
fn resolve_object_defaults_to_resolve() {
    let mut resolver = FakeResolver::new().with_response("M31", sample_identity());
    let got = resolver.resolve_object("M 31").unwrap();
    assert_eq!(got.primary_designation, "M 31");
}

#[test]
fn fake_resolver_call_count_increments() {
    let mut resolver = FakeResolver::new().with_response("M31", sample_identity());
    assert_eq!(resolver.call_count(), 0);
    let _ = resolver.resolve("M 31");
    let _ = resolver.resolve("m31");
    assert_eq!(resolver.call_count(), 2);
}

#[test]
fn fake_resolver_clone_resets_call_counter() {
    let mut resolver = FakeResolver::new().with_response("M31", sample_identity());
    let _ = resolver.resolve("M 31");
    assert_eq!(resolver.call_count(), 1);

    let mut cloned = resolver.clone();
    assert_eq!(cloned.call_count(), 0);
    let got = cloned.resolve("M 31").unwrap();
    assert_eq!(got.primary_designation, "M 31");
    assert_eq!(cloned.call_count(), 1);
    assert_eq!(resolver.call_count(), 1, "clone's calls do not affect the original");
}

#[test]
fn fake_resolver_prefers_errors_and_later_answers() {
    let mut later = sample_identity();
    later.otype_raw = "AGN".to_owned();
    let mut resolver = FakeResolver::new()
        .with_response("M 31", sample_identity())
        .with_response("m31", later.clone());
    assert_eq!(resolver.resolve("M31"), Ok(later.clone()));
    let mut failing =
        resolver.with_error("M 31", ResolveError::Timeout(3)).with_response("M 31", later);
    assert_eq!(failing.resolve("M31"), Err(ResolveError::Timeout(3)));
}

#[test]
fn offline_resolver_always_disabled() {
    let mut resolver = OfflineResolver;
    let err = resolver.resolve("M 31").unwrap_err();
    assert_eq!(err, ResolveError::Disabled);
}

struct FakePositionResolver;

impl PositionResolver for FakePositionResolver {
    fn resolve_position(
        &mut self,
        _ra_deg: Double,
        _dec_deg: Double,
        _radius_deg: Double,
        limit: usize,
    ) -> Result<Vec<PositionMatch>, ResolveError> {
        let identity = sample_identity();
        let matches: Vec<PositionMatch> =
            std::iter::once(PositionMatch { identity, separation_deg: double(0.01) })
                .take(limit)
                .collect();
        Ok(matches)
    }
}

#[test]
fn position_resolver_is_object_safe_and_callable() {
    let mut resolver: Box<dyn PositionResolver> = Box::new(FakePositionResolver);
    let matches =
        resolver.resolve_position(double(10.68), double(41.27), double(0.5), 5).unwrap();
    assert_eq!(matches.len(), 1);
    assert!((f64::from_bits(matches[0].separation_deg.bits) - 0.01).abs() < 1e-9);
}

#[test]
fn transient_errors_are_those_that_may_pass() {
    assert!(ResolveError::Network("x".to_owned()).is_transient());
    assert!(ResolveError::Timeout(1).is_transient());
    assert!(ResolveError::Disabled.is_transient());
    assert!(!ResolveError::NotFound("x".to_owned()).is_transient());
    assert!(!ResolveError::Ambiguous { query: "x".to_owned(), count: 2 }.is_transient());
    assert!(!ResolveError::Parse("x".to_owned()).is_transient());
}
