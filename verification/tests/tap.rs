//! Lookups over TAP: queries, answers and the steps in between.

use simbad_resolver::tap::{
    aliases_query, assemble_aliases, assemble_identity, check_body, classify_failure,
    is_votable_error, name_to_resolve, objects_query, parse_basic_rows, parse_position_rows,
    position_matches, position_query, push_unique, single_object, tsv_data_lines, ResponseBuffer,
    TapFlow, TapStep, MAX_RESPONSE_BYTES,
};
use simbad_resolver::wire::{number_texts, BasicRow, RowNumbers};
use simbad_resolver::{
    map_otype, AliasKind, Double, ObjectType, ResolveError, ResolvedAlias, ResolvedIdentity,
    SimbadConfig,
    TapResolver, TargetSource, Timeout,
};

const M31_BASIC_TSV: &str =
    "oid\tmain_id\tra\tdec\totype_txt\tV\tgaldim_majaxis\tgaldim_minaxis\tgaldim_angle\n\
    1575544\t\"M  31\"\t10.6847083\t41.26875\t\"G\"\t3.44\t199.53\t70.79\t35\n";
const M57_BASIC_TSV: &str =
    "oid\tmain_id\tra\tdec\totype_txt\tV\tgaldim_majaxis\tgaldim_minaxis\tgaldim_angle\n\
    1560141\t\"M  57\"\t283.3963\t33.0292\t\"PN\"\t8.79\t1.153\t1.153\t90\n";
const VEGA_BASIC_TSV: &str =
    "oid\tmain_id\tra\tdec\totype_txt\tV\tgaldim_majaxis\tgaldim_minaxis\tgaldim_angle\n\
    3672809\t\"* alf Lyr\"\t279.2347\t38.7837\t\"*\"\t0.03\t\t\t\n";
const AMBIGUOUS_BASIC_TSV: &str =
    "oid\tmain_id\tra\tdec\totype_txt\tV\tgaldim_majaxis\tgaldim_minaxis\tgaldim_angle\n\
    1575544\t\"M  31\"\t10.6847083\t41.26875\t\"G\"\t3.44\t199.53\t70.79\t35\n\
    999999\t\"Some Other\"\t11.0\t42.0\t\"G\"\t\t\t\t\n";
const EMPTY_BASIC_TSV: &str =
    "oid\tmain_id\tra\tdec\totype_txt\tV\tgaldim_majaxis\tgaldim_minaxis\tgaldim_angle\n";
const M31_ALIAS_TSV: &str = "id\n\
    \"M   31\"\n\
    \"NGC  224\"\n\
    \"NAME Andromeda Galaxy\"\n\
    \"NAME  Andromeda Nebula\"\n";
const M57_ALIAS_TSV: &str = "id\n\
    \"M   57\"\n\
    \"NGC  6720\"\n";
const VEGA_ALIAS_TSV: &str = "id\n\
    \"* alf Lyr\"\n\
    \"NAME Vega\"\n";
const M31_POSITION_TSV: &str =
    "oid\tmain_id\tra\tdec\totype_txt\tV\tgaldim_majaxis\tgaldim_minaxis\tgaldim_angle\tdist\n\
    1575544\t\"M  31\"\t10.6847083\t41.26875\t\"G\"\t3.44\t199.53\t70.79\t35\t0.001\n\
    222\t\"NGC 206\"\t10.9\t40.7\t\"OpC\"\t\t\t\t\t0.6\n";
const VOTABLE_ERROR_BODY: &str = "<VOTABLE version=\"1.4\"><RESOURCE type=\"results\">\
    <INFO name=\"QUERY_STATUS\" value=\"ERROR\">syntax error</INFO></RESOURCE></VOTABLE>";

fn double(x: f64) -> Double {
    Double { bits: x.to_bits() }
}

fn value(x: Double) -> f64 {
    f64::from_bits(x.bits)
}

fn number(text: &str) -> Option<Double> {
    text.parse::<f64>().ok().map(double)
}

fn numbers(body: &str) -> Vec<RowNumbers> {
    let nothing = RowNumbers {
        ra: None,
        dec: None,
        v_mag: None,
        majaxis: None,
        minaxis: None,
        dist: None,
    };
    tsv_data_lines(body)
        .iter()
        .map(|line| match number_texts(line) {
            Some(t) => RowNumbers {
                ra: number(&t.ra),
                dec: number(&t.dec),
                v_mag: number(&t.v_mag),
                majaxis: number(&t.majaxis),
                minaxis: number(&t.minaxis),
                dist: number(&t.dist),
            },
            None => nothing,
        })
        .collect()
}

fn rows(body: &str) -> Vec<BasicRow> {
    parse_basic_rows(body, &numbers(body))
}

/// Run a lookup against canned answers, in the order in which they are asked for.
fn look_up(query: &str, bodies: &[&str]) -> (Result<ResolvedIdentity, ResolveError>, usize) {
    let mut sent: usize = 0;
    let mut step = TapFlow::start(query);
    loop {
        match step {
            TapStep::Finish(r) => return (r, sent),
            TapStep::Send { next, .. } => {
                let body = match check_body(bodies[sent].to_owned()) {
                    Ok(body) => body,
                    Err(e) => return (Err(e), sent),
                };
                sent += 1;
                step = next.advance(&body, &numbers(&body));
            }
        }
    }
}

#[test]
fn parse_basic_rows_extracts_one_object() {
    let rows = rows(M31_BASIC_TSV);
    assert_eq!(rows.len(), 1);
    let row = &rows[0];
    assert_eq!(row.oid, 1_575_544);
    assert_eq!(row.main_id, "M  31");
    assert!((value(row.ra) - 10.684_708_3).abs() < 1e-6);
    assert!((value(row.dec) - 41.268_75).abs() < 1e-6);
    assert_eq!(row.otype, "G");
    assert_eq!(map_otype(&row.otype), ObjectType::Galaxy);
    assert_eq!(row.v_mag.map(value), Some(3.44));
    assert_eq!(row.galdim_majaxis.map(value), Some(199.53));
    assert_eq!(row.galdim_minaxis.map(value), Some(70.79));
    assert_eq!(row.galdim_angle, Some(35));
}

#[test]
fn parse_basic_rows_equal_axes_object() {
    let rows = rows(M57_BASIC_TSV);
    assert_eq!(rows.len(), 1);
    assert_eq!(rows[0].galdim_majaxis.map(value), Some(1.153));
    assert_eq!(rows[0].galdim_minaxis.map(value), Some(1.153));
    assert_eq!(rows[0].galdim_angle, Some(90));
}

#[test]
fn parse_basic_rows_point_source_has_no_galdim() {
    let rows = rows(VEGA_BASIC_TSV);
    assert_eq!(rows.len(), 1);
    assert_eq!(rows[0].galdim_majaxis, None);
    assert_eq!(rows[0].galdim_minaxis, None);
    assert_eq!(rows[0].galdim_angle, None);
}

#[test]
fn parse_basic_rows_zero_rows_is_not_found_precondition() {
    assert!(rows(EMPTY_BASIC_TSV).is_empty());
}

#[test]
fn parse_basic_rows_multiple_rows_is_ambiguous_precondition() {
    assert_eq!(rows(AMBIGUOUS_BASIC_TSV).len(), 2);
}

#[test]
fn parse_basic_rows_drops_bad_rows_only() {
    let body = "header\r\nabc\t\"X\"\t1\t1\t\"G\"\t\t\t\t\r\n\r\n   \n7\t\"Y\"\t1\t1\t\"G\"\t\t\t\t";
    let rows = rows(body);
    assert_eq!(rows.len(), 1);
    assert_eq!(rows[0].oid, 7);
    assert_eq!(rows[0].main_id, "Y");
}

#[test]
fn assemble_aliases_splits_names_and_designations() {
    let (aliases, common_name) = assemble_aliases(M31_ALIAS_TSV);
    assert_eq!(common_name.as_deref(), Some("Andromeda Galaxy"));
    assert!(aliases.iter().any(|a| a.alias == "M 31" && a.kind == AliasKind::Designation));
    assert!(aliases.iter().any(|a| a.alias == "NGC 224" && a.kind == AliasKind::Designation));
    assert!(aliases
        .iter()
        .any(|a| a.alias == "Andromeda Galaxy" && a.kind == AliasKind::CommonName));
    assert!(aliases
        .iter()
        .any(|a| a.alias == "Andromeda Nebula" && a.kind == AliasKind::CommonName));
}

#[test]
fn assemble_identity_builds_full_identity_and_dedupes_primary_alias() {
    let (aliases, common_name) = assemble_aliases(M31_ALIAS_TSV);
    let row = BasicRow {
        oid: 1_575_544,
        main_id: "M  31".to_owned(),
        ra: double(10.684_708_3),
        dec: double(41.268_75),
        otype: "G".to_owned(),
        v_mag: Some(double(3.44)),
        galdim_majaxis: Some(double(199.53)),
        galdim_minaxis: Some(double(70.79)),
        galdim_angle: Some(35),
    };
    let identity = assemble_identity(&row, aliases, common_name);
    assert_eq!(identity.simbad_oid, Some(1_575_544));
    assert_eq!(identity.primary_designation, "M 31");
    assert_eq!(identity.object_type, ObjectType::Galaxy);
    assert_eq!(identity.otype_raw, "G");
    assert_eq!(identity.v_mag, Some(double(3.44)));
    assert_eq!(identity.galdim_majaxis_arcmin, Some(double(199.53)));
    assert_eq!(identity.galdim_minaxis_arcmin, Some(double(70.79)));
    assert_eq!(identity.galdim_angle_deg, Some(35));
    assert_eq!(identity.common_name.as_deref(), Some("Andromeda Galaxy"));
    assert_eq!(identity.source, TargetSource::Resolved);
    assert_eq!(identity.aliases.iter().filter(|a| a.alias == "M 31").count(), 1);
}

#[test]
fn assemble_identity_adds_primary_designation_when_alias_list_is_empty() {
    let row = BasicRow {
        oid: 42,
        main_id: "NGC 206".to_owned(),
        ra: double(10.9),
        dec: double(40.7),
        otype: "OpC".to_owned(),
        v_mag: None,
        galdim_majaxis: None,
        galdim_minaxis: None,
        galdim_angle: None,
    };
    let identity = assemble_identity(&row, Vec::new(), None);
    assert_eq!(identity.aliases.len(), 1);
    assert_eq!(identity.aliases[0].alias, "NGC 206");
    assert_eq!(identity.aliases[0].kind, AliasKind::Designation);
    assert_eq!(identity.object_type, ObjectType::OpenCluster);
    assert_eq!(identity.v_mag, None);
    assert_eq!(identity.galdim_majaxis_arcmin, None);
    assert_eq!(identity.galdim_minaxis_arcmin, None);
    assert_eq!(identity.galdim_angle_deg, None);
}

#[test]
fn primary_designation_is_a_designation_even_where_it_is_a_common_name() {
    let row = BasicRow {
        oid: 1,
        main_id: "Vega".to_owned(),
        ra: double(279.2),
        dec: double(38.8),
        otype: "*".to_owned(),
        v_mag: None,
        galdim_majaxis: None,
        galdim_minaxis: None,
        galdim_angle: None,
    };
    let given = vec![ResolvedAlias::new("Vega", AliasKind::CommonName)];
    let identity = assemble_identity(&row, given, None);
    assert_eq!(identity.primary_designation, "Vega");
    assert_eq!(
        identity.aliases,
        vec![
            ResolvedAlias::new("Vega", AliasKind::CommonName),
            ResolvedAlias::new("Vega", AliasKind::Designation),
        ]
    );

    let given = vec![ResolvedAlias::new("Vega", AliasKind::Designation)];
    let identity = assemble_identity(&row, given, None);
    assert_eq!(identity.aliases, vec![ResolvedAlias::new("Vega", AliasKind::Designation)]);

    let nameless = BasicRow { main_id: "  ".to_owned(), ..row };
    assert!(assemble_identity(&nameless, Vec::new(), None).aliases.is_empty());
}

#[test]
fn parse_position_rows_parses_distance_column_in_order() {
    let rows = parse_position_rows(M31_POSITION_TSV, &numbers(M31_POSITION_TSV));
    assert_eq!(rows.len(), 2);
    assert_eq!(rows[0].row.oid, 1_575_544);
    assert_eq!(rows[0].row.v_mag.map(value), Some(3.44));
    assert_eq!(rows[0].row.galdim_majaxis.map(value), Some(199.53));
    assert_eq!(rows[0].row.galdim_minaxis.map(value), Some(70.79));
    assert_eq!(rows[0].row.galdim_angle, Some(35));
    assert!((value(rows[0].dist) - 0.001).abs() < 1e-9);
    assert_eq!(rows[1].row.oid, 222);
    assert_eq!(rows[1].row.v_mag, None, "NGC 206 has no V mag");
    assert_eq!(rows[1].row.galdim_majaxis, None, "NGC 206 has no galdim measurement");
    assert!((value(rows[1].dist) - 0.6).abs() < 1e-9);
}

#[test]
fn position_rows_need_a_distance() {
    let head = "h\n";
    for dist in ["", "-0.1", "inf", "NaN", "~"] {
        let body = format!("{head}1\t\"X\"\t1\t1\t\"G\"\t\t\t\t\t{dist}\n");
        assert!(parse_position_rows(&body, &numbers(&body)).is_empty(), "{dist}");
    }
    let short = "h\n1\t\"X\"\t1\t1\t\"G\"\t\t\t\t\n";
    assert!(parse_position_rows(short, &numbers(short)).is_empty());
    let zero = "h\n1\t\"X\"\t1\t1\t\"G\"\t\t\t\t\t-0.0\n";
    assert_eq!(parse_position_rows(zero, &numbers(zero)).len(), 1);
}

#[test]
fn is_votable_error_detects_error_body_only() {
    assert!(is_votable_error(VOTABLE_ERROR_BODY));
    assert!(!is_votable_error(M31_BASIC_TSV));
}

#[test]
fn push_unique_dedupes_by_display() {
    let mut v = Vec::new();
    push_unique(&mut v, "M 31", AliasKind::Designation);
    push_unique(&mut v, "M 31", AliasKind::Designation);
    push_unique(&mut v, "", AliasKind::Designation);
    assert_eq!(v.len(), 1);
}

#[test]
fn resolver_builds_from_defaults() {
    assert!(TapResolver::with_defaults().is_ok());
}

#[test]
fn resolver_rejects_invalid_endpoint() {
    let config = SimbadConfig { endpoint: "not a url".to_owned(), ..SimbadConfig::default() };
    let err = TapResolver::new(&config).unwrap_err();
    assert!(matches!(err, ResolveError::Network(_)));
    assert_eq!(
        err,
        ResolveError::Network(
            "invalid TAP endpoint \"not a url\": relative URL without a base".to_owned()
        )
    );
}

#[test]
fn resolver_endpoint_is_the_parsed_url() {
    let config =
        SimbadConfig { endpoint: "HTTPS://Example.TEST".to_owned(), ..SimbadConfig::default() };
    let resolver = TapResolver::new(&config).unwrap();
    assert_eq!(resolver.endpoint, "https://example.test/");
    assert_eq!(resolver.timeout, Timeout { secs: 10, nanos: 0 });
    assert_eq!(resolver.user_agent, SimbadConfig::default().user_agent);
}

#[test]
fn resolve_single_object_returns_full_identity() {
    let (r, sent) = look_up("M 31", &[M31_BASIC_TSV, M31_ALIAS_TSV]);
    let identity = r.unwrap();
    assert_eq!(sent, 2);
    assert_eq!(identity.simbad_oid, Some(1_575_544));
    assert_eq!(identity.primary_designation, "M 31");
    assert_eq!(identity.object_type, ObjectType::Galaxy);
    assert!((value(identity.ra_deg) - 10.684_708_3).abs() < 1e-6);
    assert!((value(identity.dec_deg) - 41.268_75).abs() < 1e-6);
    assert_eq!(identity.v_mag.map(value), Some(3.44));
    assert_eq!(identity.galdim_majaxis_arcmin.map(value), Some(199.53));
    assert_eq!(identity.galdim_minaxis_arcmin.map(value), Some(70.79));
    assert_eq!(identity.galdim_angle_deg, Some(35));
    assert_eq!(identity.common_name.as_deref(), Some("Andromeda Galaxy"));
    assert!(identity.aliases.iter().any(|a| a.alias == "NGC 224"));
    assert!(identity.aliases.iter().any(|a| a.alias == "M 31"));
}

#[test]
fn resolve_equal_axes_object_reports_matching_majaxis_and_minaxis() {
    let identity = look_up("M 57", &[M57_BASIC_TSV, M57_ALIAS_TSV]).0.unwrap();
    assert_eq!(identity.galdim_majaxis_arcmin.map(value), Some(1.153));
    assert_eq!(identity.galdim_minaxis_arcmin.map(value), Some(1.153));
    assert_eq!(identity.galdim_angle_deg, Some(90));
}

#[test]
fn resolve_point_source_has_no_galdim_measurement() {
    let identity = look_up("Vega", &[VEGA_BASIC_TSV, VEGA_ALIAS_TSV]).0.unwrap();
    assert_eq!(identity.galdim_majaxis_arcmin, None);
    assert_eq!(identity.galdim_minaxis_arcmin, None);
    assert_eq!(identity.galdim_angle_deg, None);
}

#[test]
fn resolve_zero_rows_is_not_found() {
    let (r, sent) = look_up("No Such Object", &[EMPTY_BASIC_TSV]);
    assert_eq!(r.unwrap_err(), ResolveError::NotFound("No Such Object".to_owned()));
    assert_eq!(sent, 1);
}

#[test]
fn resolve_multiple_rows_is_ambiguous() {
    let err = look_up("Ambiguous", &[AMBIGUOUS_BASIC_TSV]).0.unwrap_err();
    assert_eq!(err, ResolveError::Ambiguous { query: "Ambiguous".to_owned(), count: 2 });
}

#[test]
fn resolve_empty_query_short_circuits_without_a_request() {
    let (r, sent) = look_up("   ", &[]);
    assert_eq!(r.unwrap_err(), ResolveError::NotFound(String::new()));
    assert_eq!(sent, 0);
}

#[test]
fn resolve_votable_error_under_http_200_is_parse_error() {
    let err = look_up("M 31", &[VOTABLE_ERROR_BODY]).0.unwrap_err();
    assert_eq!(err, ResolveError::Parse("SIMBAD returned a VOTable error".to_owned()));
}

#[test]
fn resolve_position_returns_matches_ordered_nearest_first() {
    let matches = position_matches(M31_POSITION_TSV, &numbers(M31_POSITION_TSV));
    assert_eq!(matches.len(), 2);
    assert_eq!(matches[0].identity.simbad_oid, Some(1_575_544));
    assert_eq!(matches[0].identity.v_mag.map(value), Some(3.44));
    assert_eq!(matches[0].identity.galdim_majaxis_arcmin.map(value), Some(199.53));
    assert_eq!(matches[0].identity.galdim_minaxis_arcmin.map(value), Some(70.79));
    assert_eq!(matches[0].identity.galdim_angle_deg, Some(35));
    assert!((value(matches[0].separation_deg) - 0.001).abs() < 1e-9);
    assert!(value(matches[0].separation_deg) <= value(matches[1].separation_deg));
    assert!(matches[1].identity.aliases.iter().any(|a| a.alias == "NGC 206"));
    assert_eq!(matches[1].identity.aliases.len(), 1);
    assert_eq!(matches[1].identity.v_mag, None);
    assert_eq!(matches[1].identity.galdim_majaxis_arcmin, None);
}

#[test]
fn failed_requests_are_classified() {
    let timeout = Timeout { secs: 7, nanos: 5 };
    assert_eq!(classify_failure(true, "slow".to_owned(), timeout), ResolveError::Timeout(7));
    assert_eq!(
        classify_failure(false, "HTTP 500".to_owned(), timeout),
        ResolveError::Network("HTTP 500".to_owned())
    );
}

#[test]
fn names_are_quoted_and_collapsed() {
    let q = objects_query("Barnard's  Star");
    assert!(q.ends_with(
        "WHERE i.id IN ('Barnard''s  Star', 'Barnard''s Star') AND b.ra IS NOT NULL AND b.dec IS NOT NULL"
    ));
    assert_eq!(
        objects_query("M 31"),
        "SELECT DISTINCT b.oid, b.main_id, b.ra, b.dec, b.otype_txt, f.V, b.galdim_majaxis, \
         b.galdim_minaxis, b.galdim_angle FROM basic AS b JOIN ident AS i ON i.oidref = b.oid \
         LEFT OUTER JOIN allfluxes AS f ON f.oidref = b.oid WHERE i.id IN ('M 31') AND b.ra IS \
         NOT NULL AND b.dec IS NOT NULL"
    );
}

#[test]
fn identifier_query_names_the_object() {
    assert_eq!(aliases_query(1_575_544), "SELECT i.id FROM ident AS i WHERE i.oidref = 1575544");
    assert_eq!(
        aliases_query(i64::MIN),
        format!("SELECT i.id FROM ident AS i WHERE i.oidref = {}", i64::MIN)
    );
}

#[test]
fn cone_query_names_position_radius_and_limit() {
    assert_eq!(
        position_query("10.68", "41.27", "1", 5),
        "SELECT TOP 5 b.oid, b.main_id, b.ra, b.dec, b.otype_txt, f.V, b.galdim_majaxis, \
         b.galdim_minaxis, b.galdim_angle, DISTANCE(POINT('ICRS', b.ra, b.dec), POINT('ICRS', \
         10.68, 41.27)) AS dist FROM basic AS b LEFT OUTER JOIN allfluxes AS f ON f.oidref = \
         b.oid WHERE CONTAINS(POINT('ICRS', b.ra, b.dec), CIRCLE('ICRS', 10.68, 41.27, 1)) = 1 \
         AND b.ra IS NOT NULL ORDER BY dist ASC"
    );
}

#[test]
fn queries_are_sent_in_turn() {
    let first = TapFlow::start("  M 31 ");
    match first {
        TapStep::Send { adql, next } => {
            assert_eq!(adql, objects_query("M 31"));
            match next.advance(M31_BASIC_TSV, &numbers(M31_BASIC_TSV)) {
                TapStep::Send { adql, .. } => assert_eq!(adql, aliases_query(1_575_544)),
                TapStep::Finish(r) => panic!("expected a second query, got {r:?}"),
            }
        }
        TapStep::Finish(r) => panic!("expected a query, got {r:?}"),
    }
}

#[test]
fn announced_length_is_bounded() {
    assert!(ResponseBuffer::start(None).is_ok());
    assert!(ResponseBuffer::start(Some(MAX_RESPONSE_BYTES)).is_ok());
    match ResponseBuffer::start(Some(MAX_RESPONSE_BYTES + 1)) {
        Err(e) => assert_eq!(
            e,
            ResolveError::Parse(
                "SIMBAD response too large (8388609 bytes > 8388608 cap)".to_owned()
            )
        ),
        Ok(_) => panic!("expected a refusal"),
    }
}

#[test]
fn received_length_is_bounded() {
    let chunk: Vec<u8> = vec![b'x'; 4 * 1024 * 1024];
    let mut buffer = match ResponseBuffer::start(None) {
        Ok(buffer) => buffer,
        Err(e) => panic!("{e:?}"),
    };
    assert!(buffer.extend(&chunk).is_ok());
    assert!(buffer.extend(&chunk).is_ok());
    assert_eq!(
        buffer.extend(b"y"),
        Err(ResolveError::Parse("SIMBAD response exceeded 8388608 byte cap".to_owned()))
    );
}

#[test]
fn received_bytes_become_text() {
    let mut buffer = match ResponseBuffer::start(Some(5)) {
        Ok(buffer) => buffer,
        Err(e) => panic!("{e:?}"),
    };
    assert!(buffer.extend("\u{e9}".as_bytes()).is_ok());
    assert!(buffer.extend(&[0xff, b'z']).is_ok());
    assert_eq!(buffer.finish(), Ok("\u{e9}\u{fffd}z".to_owned()));
}

#[test]
fn received_errors_are_reported() {
    let mut buffer = match ResponseBuffer::start(None) {
        Ok(buffer) => buffer,
        Err(e) => panic!("{e:?}"),
    };
    assert!(buffer.extend(VOTABLE_ERROR_BODY.as_bytes()).is_ok());
    assert!(matches!(buffer.finish(), Err(ResolveError::Parse(_))));
}

#[test]
fn one_object_is_taken_others_are_errors() {
    assert_eq!(
        single_object("x", Vec::new()),
        Err(ResolveError::NotFound("x".to_owned()))
    );
    assert_eq!(single_object("x", rows(M31_BASIC_TSV)).unwrap().oid, 1_575_544);
    assert_eq!(
        single_object("x", rows(AMBIGUOUS_BASIC_TSV)),
        Err(ResolveError::Ambiguous { query: "x".to_owned(), count: 2 })
    );
    assert_eq!(name_to_resolve(" M 31 "), Ok("M 31".to_owned()));
    assert_eq!(name_to_resolve(" \t"), Err(ResolveError::NotFound(String::new())));
}
