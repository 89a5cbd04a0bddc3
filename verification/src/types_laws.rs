//! Which texts stand for which values, and which source gives way to which.

use vstd::prelude::*;

use crate::cache::PendingState;
use crate::error::ErrorView;
use crate::types::{otype_of, AliasKind, ObjectType, TargetSource};

verus! {

/// Every code stands for the type that SIMBAD's classification gives it, and a code
/// that is none of these stands for no particular type: case, white space and
/// anything before or behind a code make another code of it.
#[verifier::rlimit(60)]
pub proof fn codes_stand_for_their_types(code: Seq<char>)
    ensures
        (otype_of(code) == ObjectType::Galaxy) <==> (code == "G"@
            || code == "GiC"@
            || code == "GiG"@
            || code == "GiP"@
            || code == "IG"@
            || code == "PaG"@
            || code == "AGN"@
            || code == "SBG"@
            || code == "rG"@
            || code == "LSB"@
            || code == "AG?"@
            || code == "EmG"@
            || code == "BiC"@
            || code == "H2G"@
            || code == "Sy1"@
            || code == "Sy2"@
            || code == "SyG"@
            || code == "Galaxy"@),
        (otype_of(code) == ObjectType::PlanetaryNebula) <==> (code == "PN"@
            || code == "PN?"@
            || code == "pA*"@
            || code == "PlanetaryNebula"@),
        (otype_of(code) == ObjectType::EmissionNebula) <==> (code == "HII"@
            || code == "EmO"@
            || code == "ISM"@
            || code == "RNe?"@
            || code == "EmissionNebula"@),
        (otype_of(code) == ObjectType::ReflectionNebula) <==> (code == "RNe"@
            || code == "ReflectionNebula"@),
        (otype_of(code) == ObjectType::DarkNebula) <==> (code == "DNe"@
            || code == "MoC"@
            || code == "glb"@
            || code == "cor"@
            || code == "GNe"@
            || code == "DarkNebula"@),
        (otype_of(code) == ObjectType::OpenCluster) <==> (code == "OpC"@
            || code == "Cl*"@
            || code == "As*"@
            || code == "OpenCluster"@),
        (otype_of(code) == ObjectType::GlobularCluster) <==> (code == "GlC"@
            || code == "GlobularCluster"@),
        (otype_of(code) == ObjectType::SupernovaRemnant) <==> (code == "SNR"@
            || code == "SNR?"@
            || code == "SuperNovaRemnant"@
            || code == "SupernovaRemnant"@),
        (otype_of(code) == ObjectType::GalaxyCluster) <==> (code == "ClG"@
            || code == "GrG"@
            || code == "CGG"@
            || code == "SCG"@
            || code == "GalaxyCluster"@),
        (otype_of(code) == ObjectType::DoubleStar) <==> (code == "**"@
            || code == "**?"@
            || code == "EB*"@
            || code == "SB*"@
            || code == "DoubleStar"@),
        (otype_of(code) == ObjectType::Asterism) <==> (code == "Asterism"@),
{
    reveal_strlit("G");
    assert("G"@.len() == 1 && "G"@[0] == 'G');
    reveal_strlit("GiC");
    assert("GiC"@.len() == 3 && "GiC"@[0] == 'G' && "GiC"@[1] == 'i' && "GiC"@[2] == 'C');
    reveal_strlit("GiG");
    assert("GiG"@.len() == 3 && "GiG"@[0] == 'G' && "GiG"@[1] == 'i' && "GiG"@[2] == 'G');
    reveal_strlit("GiP");
    assert("GiP"@.len() == 3 && "GiP"@[0] == 'G' && "GiP"@[1] == 'i' && "GiP"@[2] == 'P');
    reveal_strlit("IG");
    assert("IG"@.len() == 2 && "IG"@[0] == 'I' && "IG"@[1] == 'G');
    reveal_strlit("PaG");
    assert("PaG"@.len() == 3 && "PaG"@[0] == 'P' && "PaG"@[1] == 'a' && "PaG"@[2] == 'G');
    reveal_strlit("AGN");
    assert("AGN"@.len() == 3 && "AGN"@[0] == 'A' && "AGN"@[1] == 'G' && "AGN"@[2] == 'N');
    reveal_strlit("SBG");
    assert("SBG"@.len() == 3 && "SBG"@[0] == 'S' && "SBG"@[1] == 'B' && "SBG"@[2] == 'G');
    reveal_strlit("rG");
    assert("rG"@.len() == 2 && "rG"@[0] == 'r' && "rG"@[1] == 'G');
    reveal_strlit("LSB");
    assert("LSB"@.len() == 3 && "LSB"@[0] == 'L' && "LSB"@[1] == 'S' && "LSB"@[2] == 'B');
    reveal_strlit("AG?");
    assert("AG?"@.len() == 3 && "AG?"@[0] == 'A' && "AG?"@[1] == 'G' && "AG?"@[2] == '?');
    reveal_strlit("EmG");
    assert("EmG"@.len() == 3 && "EmG"@[0] == 'E' && "EmG"@[1] == 'm' && "EmG"@[2] == 'G');
    reveal_strlit("BiC");
    assert("BiC"@.len() == 3 && "BiC"@[0] == 'B' && "BiC"@[1] == 'i' && "BiC"@[2] == 'C');
    reveal_strlit("H2G");
    assert("H2G"@.len() == 3 && "H2G"@[0] == 'H' && "H2G"@[1] == '2' && "H2G"@[2] == 'G');
    reveal_strlit("Sy1");
    assert("Sy1"@.len() == 3 && "Sy1"@[0] == 'S' && "Sy1"@[1] == 'y' && "Sy1"@[2] == '1');
    reveal_strlit("Sy2");
    assert("Sy2"@.len() == 3 && "Sy2"@[0] == 'S' && "Sy2"@[1] == 'y' && "Sy2"@[2] == '2');
    reveal_strlit("SyG");
    assert("SyG"@.len() == 3 && "SyG"@[0] == 'S' && "SyG"@[1] == 'y' && "SyG"@[2] == 'G');
    reveal_strlit("Galaxy");
    assert("Galaxy"@.len() == 6 && "Galaxy"@[0] == 'G' && "Galaxy"@[1] == 'a' && "Galaxy"@[2] == 'l' && "Galaxy"@[3] == 'a');
    reveal_strlit("PN");
    assert("PN"@.len() == 2 && "PN"@[0] == 'P' && "PN"@[1] == 'N');
    reveal_strlit("PN?");
    assert("PN?"@.len() == 3 && "PN?"@[0] == 'P' && "PN?"@[1] == 'N' && "PN?"@[2] == '?');
    reveal_strlit("pA*");
    assert("pA*"@.len() == 3 && "pA*"@[0] == 'p' && "pA*"@[1] == 'A' && "pA*"@[2] == '*');
    reveal_strlit("PlanetaryNebula");
    assert("PlanetaryNebula"@.len() == 15 && "PlanetaryNebula"@[0] == 'P' && "PlanetaryNebula"@[1] == 'l' && "PlanetaryNebula"@[2] == 'a' && "PlanetaryNebula"@[3] == 'n');
    reveal_strlit("HII");
    assert("HII"@.len() == 3 && "HII"@[0] == 'H' && "HII"@[1] == 'I' && "HII"@[2] == 'I');
    reveal_strlit("EmO");
    assert("EmO"@.len() == 3 && "EmO"@[0] == 'E' && "EmO"@[1] == 'm' && "EmO"@[2] == 'O');
    reveal_strlit("ISM");
    assert("ISM"@.len() == 3 && "ISM"@[0] == 'I' && "ISM"@[1] == 'S' && "ISM"@[2] == 'M');
    reveal_strlit("RNe?");
    assert("RNe?"@.len() == 4 && "RNe?"@[0] == 'R' && "RNe?"@[1] == 'N' && "RNe?"@[2] == 'e' && "RNe?"@[3] == '?');
    reveal_strlit("EmissionNebula");
    assert("EmissionNebula"@.len() == 14 && "EmissionNebula"@[0] == 'E' && "EmissionNebula"@[1] == 'm' && "EmissionNebula"@[2] == 'i' && "EmissionNebula"@[3] == 's');
    reveal_strlit("RNe");
    assert("RNe"@.len() == 3 && "RNe"@[0] == 'R' && "RNe"@[1] == 'N' && "RNe"@[2] == 'e');
    reveal_strlit("ReflectionNebula");
    assert("ReflectionNebula"@.len() == 16 && "ReflectionNebula"@[0] == 'R' && "ReflectionNebula"@[1] == 'e' && "ReflectionNebula"@[2] == 'f' && "ReflectionNebula"@[3] == 'l');
    reveal_strlit("DNe");
    assert("DNe"@.len() == 3 && "DNe"@[0] == 'D' && "DNe"@[1] == 'N' && "DNe"@[2] == 'e');
    reveal_strlit("MoC");
    assert("MoC"@.len() == 3 && "MoC"@[0] == 'M' && "MoC"@[1] == 'o' && "MoC"@[2] == 'C');
    reveal_strlit("glb");
    assert("glb"@.len() == 3 && "glb"@[0] == 'g' && "glb"@[1] == 'l' && "glb"@[2] == 'b');
    reveal_strlit("cor");
    assert("cor"@.len() == 3 && "cor"@[0] == 'c' && "cor"@[1] == 'o' && "cor"@[2] == 'r');
    reveal_strlit("GNe");
    assert("GNe"@.len() == 3 && "GNe"@[0] == 'G' && "GNe"@[1] == 'N' && "GNe"@[2] == 'e');
    reveal_strlit("DarkNebula");
    assert("DarkNebula"@.len() == 10 && "DarkNebula"@[0] == 'D' && "DarkNebula"@[1] == 'a' && "DarkNebula"@[2] == 'r' && "DarkNebula"@[3] == 'k');
    reveal_strlit("OpC");
    assert("OpC"@.len() == 3 && "OpC"@[0] == 'O' && "OpC"@[1] == 'p' && "OpC"@[2] == 'C');
    reveal_strlit("Cl*");
    assert("Cl*"@.len() == 3 && "Cl*"@[0] == 'C' && "Cl*"@[1] == 'l' && "Cl*"@[2] == '*');
    reveal_strlit("As*");
    assert("As*"@.len() == 3 && "As*"@[0] == 'A' && "As*"@[1] == 's' && "As*"@[2] == '*');
    reveal_strlit("OpenCluster");
    assert("OpenCluster"@.len() == 11 && "OpenCluster"@[0] == 'O' && "OpenCluster"@[1] == 'p' && "OpenCluster"@[2] == 'e' && "OpenCluster"@[3] == 'n');
    reveal_strlit("GlC");
    assert("GlC"@.len() == 3 && "GlC"@[0] == 'G' && "GlC"@[1] == 'l' && "GlC"@[2] == 'C');
    reveal_strlit("GlobularCluster");
    assert("GlobularCluster"@.len() == 15 && "GlobularCluster"@[0] == 'G' && "GlobularCluster"@[1] == 'l' && "GlobularCluster"@[2] == 'o' && "GlobularCluster"@[3] == 'b');
    reveal_strlit("SNR");
    assert("SNR"@.len() == 3 && "SNR"@[0] == 'S' && "SNR"@[1] == 'N' && "SNR"@[2] == 'R');
    reveal_strlit("SNR?");
    assert("SNR?"@.len() == 4 && "SNR?"@[0] == 'S' && "SNR?"@[1] == 'N' && "SNR?"@[2] == 'R' && "SNR?"@[3] == '?');
    reveal_strlit("SuperNovaRemnant");
    assert("SuperNovaRemnant"@.len() == 16 && "SuperNovaRemnant"@[0] == 'S' && "SuperNovaRemnant"@[1] == 'u' && "SuperNovaRemnant"@[2] == 'p' && "SuperNovaRemnant"@[3] == 'e');
    reveal_strlit("SupernovaRemnant");
    assert("SupernovaRemnant"@.len() == 16 && "SupernovaRemnant"@[0] == 'S' && "SupernovaRemnant"@[1] == 'u' && "SupernovaRemnant"@[2] == 'p' && "SupernovaRemnant"@[3] == 'e');
    reveal_strlit("ClG");
    assert("ClG"@.len() == 3 && "ClG"@[0] == 'C' && "ClG"@[1] == 'l' && "ClG"@[2] == 'G');
    reveal_strlit("GrG");
    assert("GrG"@.len() == 3 && "GrG"@[0] == 'G' && "GrG"@[1] == 'r' && "GrG"@[2] == 'G');
    reveal_strlit("CGG");
    assert("CGG"@.len() == 3 && "CGG"@[0] == 'C' && "CGG"@[1] == 'G' && "CGG"@[2] == 'G');
    reveal_strlit("SCG");
    assert("SCG"@.len() == 3 && "SCG"@[0] == 'S' && "SCG"@[1] == 'C' && "SCG"@[2] == 'G');
    reveal_strlit("GalaxyCluster");
    assert("GalaxyCluster"@.len() == 13 && "GalaxyCluster"@[0] == 'G' && "GalaxyCluster"@[1] == 'a' && "GalaxyCluster"@[2] == 'l' && "GalaxyCluster"@[3] == 'a');
    reveal_strlit("**");
    assert("**"@.len() == 2 && "**"@[0] == '*' && "**"@[1] == '*');
    reveal_strlit("**?");
    assert("**?"@.len() == 3 && "**?"@[0] == '*' && "**?"@[1] == '*' && "**?"@[2] == '?');
    reveal_strlit("EB*");
    assert("EB*"@.len() == 3 && "EB*"@[0] == 'E' && "EB*"@[1] == 'B' && "EB*"@[2] == '*');
    reveal_strlit("SB*");
    assert("SB*"@.len() == 3 && "SB*"@[0] == 'S' && "SB*"@[1] == 'B' && "SB*"@[2] == '*');
    reveal_strlit("DoubleStar");
    assert("DoubleStar"@.len() == 10 && "DoubleStar"@[0] == 'D' && "DoubleStar"@[1] == 'o' && "DoubleStar"@[2] == 'u' && "DoubleStar"@[3] == 'b');
    reveal_strlit("Asterism");
    assert("Asterism"@.len() == 8 && "Asterism"@[0] == 'A' && "Asterism"@[1] == 's' && "Asterism"@[2] == 't' && "Asterism"@[3] == 'e');
}

/// A row gives way to one from its own source or from one of higher standing: what
/// was shipped to what was resolved, and both to what the user chose.
pub proof fn sources_have_their_standing(new: TargetSource, stored: TargetSource)
    ensures
        new.overwrites(stored) <==> (stored == TargetSource::Seed || new == TargetSource::UserOverride
            || (new == TargetSource::Resolved && stored == TargetSource::Resolved)),
{
}

/// A stored type is read from its own text and from no other; any other text is read
/// as no particular type.
pub proof fn stored_types_have_their_texts(s: Seq<char>)
    ensures
        (ObjectType::of_wire(s) == ObjectType::Galaxy) <==> s == "galaxy"@,
        (ObjectType::of_wire(s) == ObjectType::PlanetaryNebula) <==> s == "planetary_nebula"@,
        (ObjectType::of_wire(s) == ObjectType::EmissionNebula) <==> s == "emission_nebula"@,
        (ObjectType::of_wire(s) == ObjectType::ReflectionNebula) <==> s == "reflection_nebula"@,
        (ObjectType::of_wire(s) == ObjectType::DarkNebula) <==> s == "dark_nebula"@,
        (ObjectType::of_wire(s) == ObjectType::OpenCluster) <==> s == "open_cluster"@,
        (ObjectType::of_wire(s) == ObjectType::GlobularCluster) <==> s == "globular_cluster"@,
        (ObjectType::of_wire(s) == ObjectType::SupernovaRemnant) <==> s == "supernova_remnant"@,
        (ObjectType::of_wire(s) == ObjectType::GalaxyCluster) <==> s == "galaxy_cluster"@,
        (ObjectType::of_wire(s) == ObjectType::DoubleStar) <==> s == "double_star"@,
        (ObjectType::of_wire(s) == ObjectType::Asterism) <==> s == "asterism"@,
{
    reveal_strlit("galaxy");
    assert("galaxy"@.len() == 6 && "galaxy"@[0] == 'g' && "galaxy"@[1] == 'a' && "galaxy"@[2] == 'l');
    reveal_strlit("planetary_nebula");
    assert("planetary_nebula"@.len() == 16 && "planetary_nebula"@[0] == 'p' && "planetary_nebula"@[1] == 'l' && "planetary_nebula"@[2] == 'a');
    reveal_strlit("emission_nebula");
    assert("emission_nebula"@.len() == 15 && "emission_nebula"@[0] == 'e' && "emission_nebula"@[1] == 'm' && "emission_nebula"@[2] == 'i');
    reveal_strlit("reflection_nebula");
    assert("reflection_nebula"@.len() == 17 && "reflection_nebula"@[0] == 'r' && "reflection_nebula"@[1] == 'e' && "reflection_nebula"@[2] == 'f');
    reveal_strlit("dark_nebula");
    assert("dark_nebula"@.len() == 11 && "dark_nebula"@[0] == 'd' && "dark_nebula"@[1] == 'a' && "dark_nebula"@[2] == 'r');
    reveal_strlit("open_cluster");
    assert("open_cluster"@.len() == 12 && "open_cluster"@[0] == 'o' && "open_cluster"@[1] == 'p' && "open_cluster"@[2] == 'e');
    reveal_strlit("globular_cluster");
    assert("globular_cluster"@.len() == 16 && "globular_cluster"@[0] == 'g' && "globular_cluster"@[1] == 'l' && "globular_cluster"@[2] == 'o');
    reveal_strlit("supernova_remnant");
    assert("supernova_remnant"@.len() == 17 && "supernova_remnant"@[0] == 's' && "supernova_remnant"@[1] == 'u' && "supernova_remnant"@[2] == 'p');
    reveal_strlit("galaxy_cluster");
    assert("galaxy_cluster"@.len() == 14 && "galaxy_cluster"@[0] == 'g' && "galaxy_cluster"@[1] == 'a' && "galaxy_cluster"@[2] == 'l');
    reveal_strlit("double_star");
    assert("double_star"@.len() == 11 && "double_star"@[0] == 'd' && "double_star"@[1] == 'o' && "double_star"@[2] == 'u');
    reveal_strlit("asterism");
    assert("asterism"@.len() == 8 && "asterism"@[0] == 'a' && "asterism"@[1] == 's' && "asterism"@[2] == 't');
}

/// A stored source is read from its own text, and no other text is a source.
pub proof fn stored_sources_have_their_texts(s: Seq<char>)
    ensures
        TargetSource::of_wire(s) == Some(TargetSource::Seed) <==> s == "seed"@,
        TargetSource::of_wire(s) == Some(TargetSource::Resolved) <==> s == "resolved"@,
        TargetSource::of_wire(s) == Some(TargetSource::UserOverride) <==> s == "user-override"@,
{
    reveal_strlit("seed");
    reveal_strlit("resolved");
    reveal_strlit("user-override");
    assert("seed"@.len() == 4 && "resolved"@.len() == 8 && "user-override"@.len() == 13);
}

/// A stored kind is read from its own text, and any other text is read as a
/// designation.
pub proof fn stored_kinds_have_their_texts(s: Seq<char>)
    ensures
        AliasKind::of_wire(s) == AliasKind::CommonName <==> s == "common_name"@,
        AliasKind::of_wire(s) == AliasKind::User <==> s == "user"@,
{
    reveal_strlit("common_name");
    reveal_strlit("user");
    assert("common_name"@.len() == 11 && "user"@.len() == 4);
}

/// A stored state of an item is read from its own text, and no other text is a state.
pub proof fn stored_states_have_their_texts(s: Seq<char>)
    ensures
        PendingState::of_wire(s) == Some(PendingState::Pending) <==> s == "pending"@,
        PendingState::of_wire(s) == Some(PendingState::Resolved) <==> s == "resolved"@,
        PendingState::of_wire(s) == Some(PendingState::Unresolved) <==> s == "unresolved"@,
{
    reveal_strlit("pending");
    reveal_strlit("resolved");
    reveal_strlit("unresolved");
    assert("pending"@.len() == 7 && "resolved"@.len() == 8 && "unresolved"@.len() == 10);
}

/// The errors that may pass are those of the network, a timeout, and a resolver that
/// is switched off; the others stay.
pub proof fn some_errors_may_pass(e: ErrorView)
    ensures
        e.transient() <==> match e {
            ErrorView::Network(_) => true,
            ErrorView::Timeout(_) => true,
            ErrorView::Disabled => true,
            ErrorView::NotFound(_) => false,
            ErrorView::Ambiguous { .. } => false,
            ErrorView::Parse(_) => false,
        },
{
}

} // verus!
