//! Rows of tab-separated answers.

use simbad_resolver::wire::{
    collapse_spaces, number_texts, parse_basic_row, parse_optional_i16, parse_optional_mag,
    unquote, BasicRow, RowNumbers,
};
use simbad_resolver::Double;

fn double(x: f64) -> Double {
    Double { bits: x.to_bits() }
}

fn value(x: Double) -> f64 {
    f64::from_bits(x.bits)
}

fn number(text: &str) -> Option<Double> {
    text.parse::<f64>().ok().map(double)
}

fn numbers(line: &str) -> RowNumbers {
    match number_texts(line) {
        Some(t) => RowNumbers {
            ra: number(&t.ra),
            dec: number(&t.dec),
            v_mag: number(&t.v_mag),
            majaxis: number(&t.majaxis),
            minaxis: number(&t.minaxis),
            dist: number(&t.dist),
        },
        None => RowNumbers {
            ra: None,
            dec: None,
            v_mag: None,
            majaxis: None,
            minaxis: None,
            dist: None,
        },
    }
}

fn parse(line: &str) -> Option<BasicRow> {
    parse_basic_row(line, &numbers(line))
}

#[test]
fn unquote_strips_tsv_quotes() {
    assert_eq!(unquote("\"M 31\""), "M 31");
    assert_eq!(unquote("  12345  "), "12345");
}

#[test]
fn unquote_trims_before_and_after_quotes() {
    assert_eq!(unquote(" \"M 31\" "), "M 31");
    assert_eq!(unquote("\"\""), "");
    assert_eq!(unquote(""), "");
}

#[test]
fn collapse_spaces_normalizes_padding() {
    assert_eq!(collapse_spaces("M   31"), "M 31");
    assert_eq!(collapse_spaces("  NGC  224 "), "NGC 224");
}

#[test]
fn collapse_spaces_twice_is_once() {
    for s in ["", "   ", "M\t 31", " a  b\u{a0}c ", "\u{3000}x"] {
        let once = collapse_spaces(s);
        assert_eq!(collapse_spaces(&once), once);
    }
    assert_eq!(collapse_spaces(" a  b\u{a0}c "), "a b c");
}

#[test]
fn parse_basic_row_extracts_columns() {
    let line = "1575544\t\"M  31\"\t10.6847083\t41.26875\t\"G\"\t3.44\t199.53\t70.79\t35";
    let row = parse(line).unwrap();
    assert_eq!(row.oid, 1_575_544);
    assert_eq!(row.main_id, "M  31");
    assert!((value(row.ra) - 10.684_708_3).abs() < 1e-6);
    assert!((value(row.dec) - 41.268_75).abs() < 1e-6);
    assert_eq!(row.otype, "G");
    assert_eq!(row.v_mag.map(value), Some(3.44));
    assert_eq!(row.galdim_majaxis.map(value), Some(199.53));
    assert_eq!(row.galdim_minaxis.map(value), Some(70.79));
    assert_eq!(row.galdim_angle, Some(35));
}

#[test]
fn parse_basic_row_equal_axes_object() {
    let line = "1560141\t\"M  57\"\t283.3963\t33.0292\t\"PN\"\t8.79\t1.153\t1.153\t90";
    let row = parse(line).unwrap();
    assert_eq!(row.galdim_majaxis.map(value), Some(1.153));
    assert_eq!(row.galdim_minaxis.map(value), Some(1.153));
    assert_eq!(row.galdim_angle, Some(90));
}

#[test]
fn parse_basic_row_point_source_has_no_galdim() {
    let line = "3672809\t\"* alf Lyr\"\t279.2347\t38.7837\t\"*\"\t0.03\t\t\t";
    let row = parse(line).unwrap();
    assert_eq!(row.galdim_majaxis, None);
    assert_eq!(row.galdim_minaxis, None);
    assert_eq!(row.galdim_angle, None);
}

#[test]
fn parse_basic_row_empty_v_is_none() {
    let line = "1575544\t\"M  31\"\t10.6847083\t41.26875\t\"G\"\t\t\t\t";
    let row = parse(line).unwrap();
    assert_eq!(row.v_mag, None);
    assert_eq!(row.galdim_majaxis, None);
    assert_eq!(row.galdim_minaxis, None);
    assert_eq!(row.galdim_angle, None);
}

#[test]
fn parse_basic_row_unparsable_v_is_none_not_dropped() {
    let line = "1575544\t\"M  31\"\t10.6847083\t41.26875\t\"G\"\t~\t~\t~\t~";
    let row = parse(line).unwrap();
    assert_eq!(row.v_mag, None);
    assert_eq!(row.galdim_majaxis, None);
    assert_eq!(row.galdim_minaxis, None);
    assert_eq!(row.galdim_angle, None);
}

#[test]
fn parse_basic_row_rejects_short_lines() {
    assert!(parse("1\t2\t3").is_none());
    assert!(parse("1\t\"X\"\t10.0\t41.0\t\"G\"\t3.4\t1.0\t1.0").is_none());
}

#[test]
fn parse_basic_row_rejects_non_numeric_fields() {
    assert!(parse("abc\t\"M 31\"\t10.0\t41.0\t\"G\"\t3.4\t\t\t").is_none());
}

#[test]
fn parse_basic_row_rejects_ra_out_of_range() {
    assert!(parse("1\t\"X\"\t360.0\t0.0\t\"G\"\t3.4\t\t\t").is_none());
    assert!(parse("1\t\"X\"\t-1.0\t0.0\t\"G\"\t3.4\t\t\t").is_none());
}

#[test]
fn parse_basic_row_rejects_dec_out_of_range() {
    assert!(parse("1\t\"X\"\t10.0\t90.1\t\"G\"\t3.4\t\t\t").is_none());
    assert!(parse("1\t\"X\"\t10.0\t-90.1\t\"G\"\t3.4\t\t\t").is_none());
    assert!(parse("1\t\"X\"\t10.0\t90.0\t\"G\"\t3.4\t\t\t").is_some());
}

#[test]
fn parse_basic_row_rejects_non_finite_coordinates() {
    assert!(parse("1\t\"X\"\tnan\t0.0\t\"G\"\t3.4\t\t\t").is_none());
    assert!(parse("1\t\"X\"\t10.0\tinf\t\"G\"\t3.4\t\t\t").is_none());
}

#[test]
fn parse_basic_row_accepts_boundary_coordinates() {
    assert!(parse("1\t\"X\"\t-0.0\t-90.0\t\"G\"\t3.4\t\t\t").is_some());
    assert!(parse("1\t\"X\"\t359.99999999999994\t0\t\"G\"\t3.4\t\t\t").is_some());
    assert!(parse("-9223372036854775808\t\"X\"\t1\t1\t\"G\"\t3.4\t\t\t").is_some());
    assert!(parse("9223372036854775808\t\"X\"\t1\t1\t\"G\"\t3.4\t\t\t").is_none());
}

#[test]
fn parse_optional_i16_parses_degrees() {
    assert_eq!(parse_optional_i16("35"), Some(35));
    assert_eq!(parse_optional_i16("-10"), Some(-10));
    assert_eq!(parse_optional_i16(""), None);
    assert_eq!(parse_optional_i16("~"), None);
    assert_eq!(parse_optional_i16("99999"), None, "out of i16 range degrades to None");
}

#[test]
fn parse_optional_i16_at_its_limits() {
    for text in ["32767", "32768", "-32768", "-32769", "+7", "+", "-", "00012", "1_0", "٣"] {
        assert_eq!(parse_optional_i16(text), text.parse::<i16>().ok(), "{text}");
    }
    assert_eq!(parse_optional_i16("\"12\""), Some(12));
}

#[test]
fn parse_optional_mag_drops_what_is_not_finite() {
    assert_eq!(parse_optional_mag("3.44", number("3.44")), Some(double(3.44)));
    assert_eq!(parse_optional_mag("inf", number("inf")), None);
    assert_eq!(parse_optional_mag("NaN", number("NaN")), None);
    assert_eq!(parse_optional_mag("", None), None);
    assert_eq!(parse_optional_mag("\"\"", number("1.0")), None);
    assert_eq!(parse_optional_mag("~", None), None);
}

#[test]
fn number_texts_are_the_unquoted_columns() {
    let t = number_texts("1\t\"X\"\t\"10.5\"\t 41 \t\"G\"\t3.4\t1\t2\t3\t0.25").unwrap();
    assert_eq!(t.ra, "10.5");
    assert_eq!(t.dec, "41");
    assert_eq!(t.v_mag, "3.4");
    assert_eq!(t.majaxis, "1");
    assert_eq!(t.minaxis, "2");
    assert_eq!(t.dist, "0.25");
    assert!(number_texts("1\t2\t3").is_none());
}
