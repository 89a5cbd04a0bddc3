//! The closed vocabularies and their stored forms.

use simbad_resolver::{map_otype, AliasKind, ObjectType, ResolvedAlias, TargetSource};

// ── map_otype ──────────────────────────────────────────────────────────

#[test]
fn map_otype_maps_known_codes() {
    assert_eq!(map_otype("G"), ObjectType::Galaxy);
    assert_eq!(map_otype("PN"), ObjectType::PlanetaryNebula);
    assert_eq!(map_otype("HII"), ObjectType::EmissionNebula);
    assert_eq!(map_otype("RNe"), ObjectType::ReflectionNebula);
    assert_eq!(map_otype("DNe"), ObjectType::DarkNebula);
    assert_eq!(map_otype("OpC"), ObjectType::OpenCluster);
    assert_eq!(map_otype("GlC"), ObjectType::GlobularCluster);
    assert_eq!(map_otype("SNR"), ObjectType::SupernovaRemnant);
    assert_eq!(map_otype("ClG"), ObjectType::GalaxyCluster);
    assert_eq!(map_otype("**"), ObjectType::DoubleStar);
    assert_eq!(map_otype("Asterism"), ObjectType::Asterism);
}

#[test]
fn map_otype_covers_full_otype_vocabulary() {
    // Every recognised code + long-form label in the mapping table.
    let cases: &[(&str, ObjectType)] = &[
        ("G", ObjectType::Galaxy),
        ("GiC", ObjectType::Galaxy),
        ("GiG", ObjectType::Galaxy),
        ("GiP", ObjectType::Galaxy),
        ("IG", ObjectType::Galaxy),
        ("PaG", ObjectType::Galaxy),
        ("AGN", ObjectType::Galaxy),
        ("SBG", ObjectType::Galaxy),
        ("rG", ObjectType::Galaxy),
        ("LSB", ObjectType::Galaxy),
        ("AG?", ObjectType::Galaxy),
        ("EmG", ObjectType::Galaxy),
        ("BiC", ObjectType::Galaxy),
        ("H2G", ObjectType::Galaxy),
        ("Sy1", ObjectType::Galaxy),
        ("Sy2", ObjectType::Galaxy),
        ("SyG", ObjectType::Galaxy),
        ("Galaxy", ObjectType::Galaxy),
        ("PN", ObjectType::PlanetaryNebula),
        ("PN?", ObjectType::PlanetaryNebula),
        ("pA*", ObjectType::PlanetaryNebula),
        ("PlanetaryNebula", ObjectType::PlanetaryNebula),
        ("HII", ObjectType::EmissionNebula),
        ("EmO", ObjectType::EmissionNebula),
        ("ISM", ObjectType::EmissionNebula),
        ("RNe?", ObjectType::EmissionNebula),
        ("EmissionNebula", ObjectType::EmissionNebula),
        ("RNe", ObjectType::ReflectionNebula),
        ("ReflectionNebula", ObjectType::ReflectionNebula),
        ("DNe", ObjectType::DarkNebula),
        ("MoC", ObjectType::DarkNebula),
        ("glb", ObjectType::DarkNebula),
        ("cor", ObjectType::DarkNebula),
        ("GNe", ObjectType::DarkNebula),
        ("DarkNebula", ObjectType::DarkNebula),
        ("OpC", ObjectType::OpenCluster),
        ("Cl*", ObjectType::OpenCluster),
        // `As*` is SIMBAD's stellar-association code, intentionally bucketed
        // as an open cluster (not the visual-asterism sense).
        ("As*", ObjectType::OpenCluster),
        ("OpenCluster", ObjectType::OpenCluster),
        ("GlC", ObjectType::GlobularCluster),
        ("GlobularCluster", ObjectType::GlobularCluster),
        ("SNR", ObjectType::SupernovaRemnant),
        ("SNR?", ObjectType::SupernovaRemnant),
        ("SuperNovaRemnant", ObjectType::SupernovaRemnant),
        ("SupernovaRemnant", ObjectType::SupernovaRemnant),
        ("ClG", ObjectType::GalaxyCluster),
        ("GrG", ObjectType::GalaxyCluster),
        ("CGG", ObjectType::GalaxyCluster),
        ("SCG", ObjectType::GalaxyCluster),
        ("GalaxyCluster", ObjectType::GalaxyCluster),
        ("**", ObjectType::DoubleStar),
        ("**?", ObjectType::DoubleStar),
        ("EB*", ObjectType::DoubleStar),
        ("SB*", ObjectType::DoubleStar),
        ("DoubleStar", ObjectType::DoubleStar),
        // Only the long-form label maps to the visual-asterism bucket.
        ("Asterism", ObjectType::Asterism),
    ];
    for (code, want) in cases {
        assert_eq!(map_otype(code), *want, "otype code {code:?} should map to {want:?}");
    }
}

#[test]
fn map_otype_unknown_is_other() {
    assert_eq!(map_otype("ZZZ"), ObjectType::Other);
    assert_eq!(map_otype(""), ObjectType::Other);
    assert_eq!(map_otype("Star"), ObjectType::Other);
}

#[test]
fn map_otype_trims_whitespace() {
    assert_eq!(map_otype("  G  "), ObjectType::Galaxy);
}

#[test]
fn object_type_wire_round_trips() {
    for ot in [
        ObjectType::Galaxy,
        ObjectType::PlanetaryNebula,
        ObjectType::EmissionNebula,
        ObjectType::ReflectionNebula,
        ObjectType::DarkNebula,
        ObjectType::OpenCluster,
        ObjectType::GlobularCluster,
        ObjectType::SupernovaRemnant,
        ObjectType::GalaxyCluster,
        ObjectType::DoubleStar,
        ObjectType::Asterism,
        ObjectType::Other,
    ] {
        assert_eq!(ObjectType::from_wire(ot.as_wire()), ot);
    }
    assert_eq!(ObjectType::from_wire("bogus"), ObjectType::Other);
}

// ── TargetSource ─────────────────────────────────────────────────────────

#[test]
fn target_source_wire_round_trips() {
    for src in [TargetSource::Seed, TargetSource::Resolved, TargetSource::UserOverride] {
        assert_eq!(TargetSource::from_wire(src.as_wire()), Some(src));
    }
    assert_eq!(TargetSource::from_wire("bogus"), None);
}

#[test]
fn target_source_precedence_and_overwrite() {
    assert!(TargetSource::Seed.precedence() < TargetSource::Resolved.precedence());
    assert!(TargetSource::Resolved.precedence() < TargetSource::UserOverride.precedence());

    // Equal-or-higher precedence may overwrite.
    assert!(TargetSource::Resolved.may_overwrite(TargetSource::Seed));
    assert!(TargetSource::Resolved.may_overwrite(TargetSource::Resolved));
    assert!(TargetSource::UserOverride.may_overwrite(TargetSource::Resolved));

    // A user-override row is sticky: lower-precedence incoming sources
    // must not overwrite it.
    assert!(!TargetSource::Seed.may_overwrite(TargetSource::UserOverride));
    assert!(!TargetSource::Resolved.may_overwrite(TargetSource::UserOverride));
}

// ── AliasKind / ResolvedAlias ──────────────────────────────────────────

#[test]
fn alias_kind_wire_round_trips() {
    for kind in [AliasKind::Designation, AliasKind::CommonName, AliasKind::User] {
        assert_eq!(AliasKind::from_wire(kind.as_wire()), kind);
    }
    assert_eq!(AliasKind::from_wire("bogus"), AliasKind::Designation);
}

#[test]
fn resolved_alias_computes_normalized_form() {
    let alias = ResolvedAlias::new("M31", AliasKind::Designation);
    assert_eq!(alias.alias, "M31");
    assert_eq!(alias.normalized, "m 31");
}

#[test]
fn object_type_stored_forms_are_snake_case() {
    assert_eq!(ObjectType::PlanetaryNebula.as_wire(), "planetary_nebula");
    assert_eq!(ObjectType::GalaxyCluster.as_wire(), "galaxy_cluster");
    assert_eq!(ObjectType::Other.as_wire(), "other");
}

#[test]
fn target_source_stored_forms_are_hyphenated() {
    assert_eq!(TargetSource::UserOverride.as_wire(), "user-override");
    assert_eq!(TargetSource::Seed.as_wire(), "seed");
    assert_eq!(TargetSource::Resolved.as_wire(), "resolved");
    assert_eq!(TargetSource::from_wire("user-override"), Some(TargetSource::UserOverride));
    assert_eq!(TargetSource::from_wire("user_override"), None);
}

#[test]
fn alias_kind_stored_forms() {
    assert_eq!(AliasKind::Designation.as_wire(), "designation");
    assert_eq!(AliasKind::CommonName.as_wire(), "common_name");
    assert_eq!(AliasKind::User.as_wire(), "user");
}

#[test]
fn precedence_ranks_the_three_sources() {
    assert!(TargetSource::Seed.precedence() < TargetSource::Resolved.precedence());
    assert!(TargetSource::Seed.may_overwrite(TargetSource::Seed));
    assert!(TargetSource::UserOverride.may_overwrite(TargetSource::UserOverride));
    assert!(!TargetSource::Seed.may_overwrite(TargetSource::Resolved));
}
