//! Text, numbers, ids and order.

use simbad_resolver::caldwell::{caldwell_to_designation, parse_caldwell_number};
use simbad_resolver::float::{DOUBLE_360, DOUBLE_90, DOUBLE_INFINITY};
use simbad_resolver::identity::{
    namespace, random_ids, target_id_from_designation, DNS_NAMESPACE,
};
use simbad_resolver::normalize::{normalize, token_overlap};
use simbad_resolver::number::{parse_i16, parse_i64, push_decimal, push_signed};
use simbad_resolver::order::goes_before;
use simbad_resolver::text::{
    contains, is_white_space, lines_of, split_at_char, split_words, starts_with, trim,
};
use simbad_resolver::{Double, ResolverConfig, SimbadConfig, Single, Timeout};

#[test]
fn white_space_is_that_of_unicode() {
    for u in 0..=0x0010_ffffu32 {
        if let Some(c) = char::from_u32(u) {
            assert_eq!(is_white_space(c), c.is_whitespace(), "{u:x}");
        }
    }
}

#[test]
fn trimming_and_splitting_agree_with_strings() {
    for s in ["", " ", "a", "  a b\t", "\u{a0}x\u{2003}", "a\u{85}b  c"] {
        assert_eq!(trim(s), s.trim());
        let words: Vec<String> = s.split_whitespace().map(str::to_owned).collect();
        assert_eq!(split_words(s), words);
    }
    for s in ["", "a", "\t", "a\tb", "a\t\tb\t"] {
        let parts: Vec<String> = s.split('\t').map(str::to_owned).collect();
        assert_eq!(split_at_char(s, '\t'), parts);
    }
    for s in ["", "a", "a\n", "a\r\nb", "a\n\nb\r", "\n", "\r\n"] {
        let lines: Vec<String> = s.lines().map(str::to_owned).collect();
        assert_eq!(lines_of(s), lines, "{s:?}");
    }
}

#[test]
fn finding_agrees_with_strings() {
    for (hay, needle) in [("", ""), ("abc", ""), ("abc", "c"), ("abc", "bd"), ("aab", "ab")] {
        assert_eq!(contains(hay, needle), hay.contains(needle));
        assert_eq!(starts_with(hay, needle), hay.starts_with(needle));
    }
}

#[test]
fn text_is_ordered_by_bytes() {
    let all = ["", "A", "M 101", "M 31", "a", "\u{e9}", "\u{ffff}", "\u{10000}", "aa"];
    for a in all {
        for b in all {
            assert_eq!(goes_before(a, b), a < b, "{a:?} {b:?}");
        }
    }
}

#[test]
fn decimal_forms_agree_with_formatting() {
    for n in [0u64, 9, 10, 12_345, u64::MAX] {
        let mut s = String::from("x");
        push_decimal(&mut s, n);
        assert_eq!(s, format!("x{n}"));
    }
    for n in [0i64, -1, i64::MIN, i64::MAX] {
        let mut s = String::new();
        push_signed(&mut s, n);
        assert_eq!(s, n.to_string());
    }
    for t in ["", "+", "-", "0", "-0", "+12", "007", " 1", "9223372036854775807", "9223372036854775808"] {
        assert_eq!(parse_i64(t), t.parse::<i64>().ok(), "{t}");
        assert_eq!(parse_i16(t), t.parse::<i16>().ok(), "{t}");
    }
}

#[test]
fn bounds_are_those_of_floats() {
    assert_eq!(DOUBLE_360, 360.0f64.to_bits());
    assert_eq!(DOUBLE_90, 90.0f64.to_bits());
    assert_eq!(DOUBLE_INFINITY, f64::INFINITY.to_bits());
    let all = [
        0.0f64, -0.0, 1.0, -1.0, 90.0, 90.000001, -90.0, -90.000001, 359.999, 360.0, 1e300,
        f64::INFINITY, f64::NEG_INFINITY, f64::NAN, -f64::NAN, f64::MIN_POSITIVE, 5e-324,
    ];
    for x in all {
        let d = Double { bits: x.to_bits() };
        assert_eq!(d.is_finite(), x.is_finite(), "{x}");
        assert_eq!(d.is_right_ascension(), (0.0..360.0).contains(&x), "{x}");
        assert_eq!(d.is_declination(), (-90.0..=90.0).contains(&x), "{x}");
        assert_eq!(d.is_separation(), x.is_finite() && x >= 0.0, "{x}");
    }
}

#[test]
fn numbers_are_equal_as_floats_are() {
    let some = [
        0.0,
        -0.0,
        1.0,
        -1.0,
        f64::MIN_POSITIVE,
        f64::MAX,
        f64::INFINITY,
        f64::NEG_INFINITY,
        f64::NAN,
        -f64::NAN,
    ];
    for a in some {
        for b in some {
            let x = Double { bits: a.to_bits() };
            let y = Double { bits: b.to_bits() };
            assert_eq!(x == y, a == b, "{a} {b}");
            let (c, d) = (a as f32, b as f32);
            let x = Single { bits: c.to_bits() };
            let y = Single { bits: d.to_bits() };
            assert_eq!(x == y, c == d, "{c} {d}");
        }
    }
}

#[test]
fn scores_compare_as_floats_do() {
    let all = [
        0.0f32, -0.0, 0.1, 0.5, 1.0, -1.0, f32::INFINITY, f32::NEG_INFINITY, f32::NAN, -f32::NAN,
    ];
    for x in all {
        for y in all {
            let (a, b) = (Single { bits: x.to_bits() }, Single { bits: y.to_bits() });
            assert_eq!(a.is_at_least(b), x >= y, "{x} {y}");
            assert_eq!(a.is_above(b), x > y, "{x} {y}");
            assert_eq!(
                a.total_place() < b.total_place(),
                x.total_cmp(&y) == std::cmp::Ordering::Less,
                "{x} {y}"
            );
        }
    }
}

#[test]
fn normalized_forms() {
    assert_eq!(normalize("M31"), "m 31");
    assert_eq!(normalize("  M   31 "), "m 31");
    assert_eq!(normalize("NGC-224"), "ngc 224");
    assert_eq!(normalize("Andromeda Galaxy"), "andromeda galaxy");
    assert_eq!(normalize("%_"), "");
    for s in ["M31", "NGC 224", "* alf Lyr", "2MASS J00", "Barnard's Star"] {
        let once = normalize(s);
        assert_eq!(normalize(&once), once);
        assert_eq!(normalize(&format!(" {s}\t")), once);
    }
}

#[test]
fn overlaps_count_distinct_words() {
    assert_eq!(token_overlap("galaxy andromeda", "andromeda galaxy"), (2, 2));
    assert_eq!(token_overlap("ring ring nebula", "ring"), (1, 2));
    assert_eq!(token_overlap("", ""), (0, 0));
    assert_eq!(token_overlap("a b", "c"), (0, 3));
}

#[test]
fn caldwell_numbers() {
    assert_eq!(parse_caldwell_number("C 14"), Some(14));
    assert_eq!(parse_caldwell_number(" c109 "), Some(109));
    for s in ["", "C", "C 0", "C 110", "C14a", "M 14", "C -1", "C 1 4", "CC 1", "C 99999999999999999999"] {
        assert_eq!(parse_caldwell_number(s), None, "{s}");
    }
    assert_eq!(caldwell_to_designation(14), Some("NGC 869"));
    assert_eq!(caldwell_to_designation(99), None);
    assert_eq!(caldwell_to_designation(0), None);
    assert_eq!(caldwell_to_designation(110), None);
    let known = (1u32..=109).filter(|n| caldwell_to_designation(*n).is_some()).count();
    assert_eq!(known, 108);
}

#[test]
fn ids_are_derived_in_the_namespace_of_the_seed() {
    let seed = "simbad-resolver-cache.tests";
    let expected = uuid::Uuid::new_v5(&uuid::Uuid::NAMESPACE_DNS, seed.as_bytes());
    assert_eq!(DNS_NAMESPACE, uuid::Uuid::NAMESPACE_DNS.as_u128());
    assert_eq!(namespace(seed), expected.as_u128());
    assert_eq!(ResolverConfig::new(seed).namespace, expected.as_u128());
    assert_eq!(
        target_id_from_designation(namespace(seed), "M 31"),
        uuid::Uuid::new_v5(&expected, b"M 31").as_u128()
    );
    assert_ne!(
        target_id_from_designation(namespace(seed), "M31"),
        target_id_from_designation(namespace(seed), "M32")
    );
}

#[test]
fn random_ids_are_uuids_that_differ() {
    let ids = random_ids(4);
    assert_eq!(ids.len(), 4);
    for (i, a) in ids.iter().enumerate() {
        let parsed = uuid::Uuid::parse_str(a).unwrap();
        assert_eq!(parsed.to_string(), *a);
        assert!(ids[i + 1..].iter().all(|b| b != a));
    }
}

#[test]
fn configurations_have_their_defaults() {
    let config = ResolverConfig::new("x");
    assert!(config.online_enabled);
    assert_eq!(config.fuzzy_min_score, None);
    assert!(!config.with_online(false).online_enabled);
    assert_eq!(
        config.with_fuzzy(Single { bits: 1 }).fuzzy_min_score,
        Some(Single { bits: 1 })
    );
    let service = SimbadConfig::default();
    assert_eq!(service.endpoint, "https://simbad.cds.unistra.fr/simbad/sim-tap/sync");
    assert_eq!(service.timeout, Timeout { secs: 10, nanos: 0 });
}
