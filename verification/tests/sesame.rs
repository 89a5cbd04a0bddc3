//! Sesame requests and answers.

use simbad_resolver::sesame::{
    body_text, build_identity, coarse_answer, enrich, parse_sesame_xml, percent_encode_query,
    push_alias, resolve_with_enrichment, sesame_blocks, status_failure, BlockNumbers, SesameHit,
    MAX_BODY_BYTES,
};
use simbad_resolver::{
    default_sesame_config, AliasKind, Double, FakeResolver, ObjectType, ResolveError,
    ResolvedAlias, ResolvedIdentity, SesameResolver, SimbadConfig, TargetSource,
    DEFAULT_SESAME_ENDPOINT,
};

const M31_SNV_XML: &str = r#"<?xml version="1.0" encoding="UTF-8"?>
<Sesame xmlns:xsi="http://www.w3.org/2001/XMLSchema-instance">
<Target option="SNV">
  <name>M31</name>
  <Resolver name="Sca=Simbad (CfA, via client/server)">
    <oid>1575544</oid>
    <otype>AGN</otype>
    <jpos>00:42:44.32 +41:16:07.5</jpos>
    <jradeg>10.68470833</jradeg>
    <jdedeg>41.26875</jdedeg>
    <oname>M  31</oname>
  </Resolver>
</Target>
</Sesame>
"#;

const FIRST_BLOCK_BAD_XML: &str = r#"<?xml version="1.0"?>
<Sesame>
<Target option="SNV">
  <name>M31</name>
  <Resolver name="N=NED">
    <jradeg>999.0</jradeg>
    <jdedeg>0.0</jdedeg>
    <oname>bad row</oname>
  </Resolver>
  <Resolver name="S=Simbad">
    <jradeg>10.68470833</jradeg>
    <jdedeg>41.26875</jdedeg>
    <oname>M  31</oname>
  </Resolver>
</Target>
</Sesame>
"#;

const NOTHING_FOUND_XML: &str = r#"<?xml version="1.0"?>
<Sesame>
<Target option="SNV">
  <name>Bogus Name Xyz</name>
  <Resolver name="S=Simbad"><INFO>*** nothing found ***</INFO></Resolver>
</Target>
</Sesame>
"#;

fn double(x: f64) -> Double {
    Double { bits: x.to_bits() }
}

fn value(x: Double) -> f64 {
    f64::from_bits(x.bits)
}

fn number(text: &Option<String>) -> Option<Double> {
    text.as_deref().and_then(|t| t.parse::<f64>().ok()).map(double)
}

fn numbers(text: &str) -> Vec<BlockNumbers> {
    sesame_blocks(text)
        .iter()
        .map(|b| BlockNumbers { ra: number(&b.ra), dec: number(&b.dec) })
        .collect()
}

fn answer(query: &str, text: &str) -> Result<ResolvedIdentity, ResolveError> {
    coarse_answer(query, text, &numbers(text))
}

fn coarse_m31() -> ResolvedIdentity {
    ResolvedIdentity {
        simbad_oid: None,
        primary_designation: "M 31".to_owned(),
        common_name: None,
        object_type: ObjectType::Other,
        otype_raw: String::new(),
        ra_deg: double(10.684_708),
        dec_deg: double(41.268_75),
        v_mag: None,
        galdim_majaxis_arcmin: None,
        galdim_minaxis_arcmin: None,
        galdim_angle_deg: None,
        aliases: vec![ResolvedAlias::new("M 31", AliasKind::Designation)],
        source: TargetSource::Resolved,
    }
}

fn enriched_m31() -> ResolvedIdentity {
    ResolvedIdentity {
        simbad_oid: Some(1_575_544),
        primary_designation: "M 31".to_owned(),
        common_name: Some("Andromeda Galaxy".to_owned()),
        object_type: ObjectType::Galaxy,
        otype_raw: "G".to_owned(),
        ra_deg: double(10.684_708),
        dec_deg: double(41.268_75),
        v_mag: Some(double(3.44)),
        galdim_majaxis_arcmin: Some(double(199.53)),
        galdim_minaxis_arcmin: Some(double(70.79)),
        galdim_angle_deg: Some(35),
        aliases: vec![
            ResolvedAlias::new("M 31", AliasKind::Designation),
            ResolvedAlias::new("NGC 224", AliasKind::Designation),
            ResolvedAlias::new("Andromeda Galaxy", AliasKind::CommonName),
        ],
        source: TargetSource::Resolved,
    }
}

#[test]
fn default_sesame_config_uses_sesame_endpoint() {
    let config = default_sesame_config();
    assert_eq!(config.endpoint, DEFAULT_SESAME_ENDPOINT);
    assert!(config.endpoint.ends_with('?'));
}

#[test]
fn build_identity_dedupes_primary_from_alias_list() {
    let hit = SesameHit {
        ra_deg: double(10.684_708),
        dec_deg: double(41.268_75),
        oname: Some("M  31".to_owned()),
        otype: Some("G".to_owned()),
        aliases: vec!["M  31".to_owned(), "NGC  224".to_owned()],
    };
    let identity = build_identity(&hit, "m31");
    assert_eq!(identity.primary_designation, "M 31");
    assert_eq!(identity.object_type, ObjectType::Galaxy);
    assert_eq!(identity.common_name, None);
    assert_eq!(identity.simbad_oid, None);
    assert_eq!(identity.source, TargetSource::Resolved);
    assert_eq!(
        identity.aliases.iter().map(|a| a.alias.as_str()).collect::<Vec<_>>(),
        vec!["M 31", "NGC 224"]
    );
}

#[test]
fn build_identity_falls_back_to_query_when_oname_missing() {
    let hit = SesameHit {
        ra_deg: double(1.0),
        dec_deg: double(1.0),
        oname: None,
        otype: None,
        aliases: vec![],
    };
    let identity = build_identity(&hit, "NGC 1");
    assert_eq!(identity.primary_designation, "NGC 1");
    assert_eq!(identity.object_type, ObjectType::Other);
    assert_eq!(identity.otype_raw, "");
}

#[test]
fn build_identity_falls_back_to_query_when_oname_is_blank() {
    let hit = SesameHit {
        ra_deg: double(1.0),
        dec_deg: double(1.0),
        oname: Some("   ".to_owned()),
        otype: Some(" G ".to_owned()),
        aliases: vec!["ngc1".to_owned(), " ".to_owned(), "UGC 57".to_owned()],
    };
    let identity = build_identity(&hit, " NGC   1 ");
    assert_eq!(identity.primary_designation, "NGC 1");
    assert_eq!(identity.object_type, ObjectType::Galaxy);
    assert_eq!(identity.otype_raw, " G ");
    assert_eq!(
        identity.aliases.iter().map(|a| a.alias.as_str()).collect::<Vec<_>>(),
        vec!["NGC 1", "UGC 57"]
    );
}

#[test]
fn enrichment_overrides_coarse_result() {
    let enriched = enriched_m31();
    let mut fake = FakeResolver::new().with_response("M 31", enriched.clone());
    let got = resolve_with_enrichment(Some(&mut fake), coarse_m31());
    assert_eq!(got, enriched);
    assert_eq!(got.object_type, ObjectType::Galaxy);
}

#[test]
fn enrichment_failure_falls_back_to_coarse() {
    let mut fake =
        FakeResolver::new().with_error("M 31", ResolveError::NotFound("M 31".to_owned()));
    let got = resolve_with_enrichment(Some(&mut fake), coarse_m31());
    assert_eq!(got, coarse_m31());
}

#[test]
fn no_enricher_returns_coarse_unchanged() {
    let got = resolve_with_enrichment::<FakeResolver>(None, coarse_m31());
    assert_eq!(got, coarse_m31());
}

#[test]
fn enriched_identities_count_as_resolved() {
    let mut seeded = enriched_m31();
    seeded.source = TargetSource::Seed;
    assert_eq!(enrich(coarse_m31(), Ok(seeded)), enriched_m31());
    assert_eq!(enrich(coarse_m31(), Err(ResolveError::Disabled)), coarse_m31());
}

#[test]
fn request_url_percent_encodes_name_after_literal_question_mark() {
    let resolver = SesameResolver::new();
    let url = resolver.request_url("M 31").unwrap();
    assert_eq!(url.as_str(), "https://cds.unistra.fr/cgi-bin/nph-sesame/-oxp/SNV?M%2031");
}

#[test]
fn with_config_uses_custom_endpoint() {
    let config = SimbadConfig {
        endpoint: "https://example.test/sesame?".to_owned(),
        ..default_sesame_config()
    };
    let resolver = SesameResolver::with_config(config);
    let url = resolver.request_url("NGC 224").unwrap();
    assert_eq!(url.as_str(), "https://example.test/sesame?NGC%20224");
}

#[test]
fn request_url_needs_a_url() {
    let config = SimbadConfig { endpoint: "no url".to_owned(), ..default_sesame_config() };
    assert_eq!(
        SesameResolver::with_config(config).request_url("x"),
        Err(ResolveError::Network(
            "invalid Sesame endpoint: relative URL without a base".to_owned()
        ))
    );
}

#[test]
fn names_are_encoded_byte_by_byte() {
    assert_eq!(percent_encode_query("aZ09-._~"), "aZ09-._~");
    assert_eq!(percent_encode_query("M 31+*/&?#%"), "M%2031%2B%2A%2F%26%3F%23%25");
    assert_eq!(percent_encode_query("\u{e9}\u{2603}"), "%C3%A9%E2%98%83");
    assert_eq!(percent_encode_query(""), "");
}

#[test]
fn resolve_live_shaped_response_yields_coords_name_and_type() {
    let identity = answer("M 31", M31_SNV_XML).unwrap();
    assert_eq!(identity.primary_designation, "M 31");
    assert!((value(identity.ra_deg) - 10.684_708_33).abs() < 1e-6);
    assert!((value(identity.dec_deg) - 41.268_75).abs() < 1e-6);
    assert_eq!(identity.object_type, ObjectType::Galaxy);
    assert_eq!(identity.otype_raw, "AGN");
    assert_eq!(identity.simbad_oid, None);
    assert_eq!(identity.common_name, None);
    assert_eq!(identity.aliases.len(), 1);
    assert_eq!(identity.aliases[0].alias, "M 31");
}

#[test]
fn resolve_skips_first_block_with_bad_coordinates() {
    let identity = answer("M 31", FIRST_BLOCK_BAD_XML).unwrap();
    assert_eq!(identity.primary_designation, "M 31");
    assert!((value(identity.ra_deg) - 10.684_708_33).abs() < 1e-6);
}

#[test]
fn resolve_unparseable_response_is_not_found() {
    let err = answer("Bogus Name Xyz", NOTHING_FOUND_XML).unwrap_err();
    assert_eq!(err, ResolveError::NotFound("Bogus Name Xyz".to_owned()));
}

#[test]
fn resolve_http_error_maps_to_network() {
    let err = status_failure("503 Service Unavailable");
    assert_eq!(
        err,
        ResolveError::Network("Sesame returned HTTP 503 Service Unavailable".to_owned())
    );
    assert!(err.is_transient());
}

#[test]
fn resolve_with_enricher_replaces_coarse_identity() {
    let coarse = answer("M 31", M31_SNV_XML).unwrap();
    let mut enricher = FakeResolver::new().with_response("M 31", enriched_m31());
    let identity = resolve_with_enrichment(Some(&mut enricher), coarse);
    assert_eq!(identity.simbad_oid, Some(1_575_544));
    assert_eq!(identity.object_type, ObjectType::Galaxy);
    assert!(identity.aliases.iter().any(|a| a.alias == "NGC 224"));
    assert_eq!(enricher.call_count(), 1);
}

#[test]
fn blocks_hold_all_aliases() {
    let text = "<Resolver name='x'><jradeg> 1.5 </jradeg><jdedeg>-2</jdedeg><alias>M 1</alias>\
                <alias> Crab </alias></Resolver>";
    let blocks = sesame_blocks(text);
    assert_eq!(blocks.len(), 1);
    assert_eq!(blocks[0].ra.as_deref(), Some("1.5"));
    assert_eq!(blocks[0].dec.as_deref(), Some("-2"));
    assert_eq!(blocks[0].oname, None);
    assert_eq!(blocks[0].otype, None);
    assert_eq!(blocks[0].aliases, vec!["M 1".to_owned(), "Crab".to_owned()]);
    let hit = parse_sesame_xml(text, &numbers(text)).unwrap();
    assert_eq!(value(hit.ra_deg), 1.5);
    assert_eq!(value(hit.dec_deg), -2.0);
    assert!(sesame_blocks("nothing").is_empty());
    assert!(sesame_blocks("<Resolver> unclosed").is_empty());
}

#[test]
fn answers_are_cut_at_the_bound() {
    let mut bytes: Vec<u8> = vec![b'a'; MAX_BODY_BYTES];
    bytes.push(b'b');
    let text = body_text(bytes);
    assert_eq!(text.len(), MAX_BODY_BYTES);
    assert!(text.ends_with('a'));
    assert_eq!(body_text(vec![b'o', 0xff, b'k']), "o\u{fffd}k");
}

#[test]
fn designations_differ_in_their_normalized_forms() {
    let mut aliases = Vec::new();
    push_alias("M 31", &mut aliases);
    push_alias("m31", &mut aliases);
    push_alias("  ", &mut aliases);
    push_alias("NGC  224", &mut aliases);
    assert_eq!(aliases.len(), 2);
    assert_eq!(aliases[1].alias, "NGC 224");
    assert_eq!(aliases[1].kind, AliasKind::Designation);
}
