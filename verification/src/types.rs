//! Resolved-identity types.
//!
//! An identity is one celestial object as a name service describes it: its
//! designation, position, classification and aliases. Each type has a
//! mathematical view, in which text is a sequence of characters; the contracts
//! of the crate speak of those views.

use vstd::prelude::*;

use crate::float::Double;
use crate::normalize::{normalize, normalized};
use crate::order::{before, goes_before, lemma_asymmetric, lemma_irreflexive, lemma_total, lemma_transitive, views, Sortable};
use crate::text::{same_text, trim, trimmed};

verus! {

/// The text of an optional string.
pub open spec fn opt_text(s: Option<String>) -> Option<Seq<char>> {
    match s {
        Some(t) => Some(t@),
        None => None,
    }
}

/// A copy of an optional string.
pub fn copy_opt(s: &Option<String>) -> (r: Option<String>)
    ensures
        opt_text(r) == opt_text(*s),
{
    match s {
        Some(t) => Some(t.clone()),
        None => None,
    }
}

// ── ObjectType ───────────────────────────────────────────────────────────────

/// Closed object classification, mapped from the SIMBAD `otype` codes.
#[derive(Clone, Copy, Debug, Eq, Hash, Ord, PartialEq, PartialOrd, Structural)]
pub enum ObjectType {
    /// A galaxy, active and interacting ones among them.
    Galaxy,
    /// A planetary nebula.
    PlanetaryNebula,
    /// An emission nebula (H II region, emission object).
    EmissionNebula,
    /// A reflection nebula.
    ReflectionNebula,
    /// A dark or molecular cloud.
    DarkNebula,
    /// An open cluster.
    OpenCluster,
    /// A globular cluster.
    GlobularCluster,
    /// A supernova remnant.
    SupernovaRemnant,
    /// A cluster of galaxies.
    GalaxyCluster,
    /// A double or multiple star.
    DoubleStar,
    /// A visual asterism.
    Asterism,
    /// Any other kind of object.
    Other,
}

impl ObjectType {
    /// The stored form of this object type.
    pub open spec fn wire(self) -> Seq<char> {
        match self {
            ObjectType::Galaxy => "galaxy"@,
            ObjectType::PlanetaryNebula => "planetary_nebula"@,
            ObjectType::EmissionNebula => "emission_nebula"@,
            ObjectType::ReflectionNebula => "reflection_nebula"@,
            ObjectType::DarkNebula => "dark_nebula"@,
            ObjectType::OpenCluster => "open_cluster"@,
            ObjectType::GlobularCluster => "globular_cluster"@,
            ObjectType::SupernovaRemnant => "supernova_remnant"@,
            ObjectType::GalaxyCluster => "galaxy_cluster"@,
            ObjectType::DoubleStar => "double_star"@,
            ObjectType::Asterism => "asterism"@,
            ObjectType::Other => "other"@,
        }
    }

    /// The object type that a stored form stands for; any other text stands for
    /// [`ObjectType::Other`].
    pub open spec fn of_wire(s: Seq<char>) -> ObjectType {
        if s == "galaxy"@ {
            ObjectType::Galaxy
        } else if s == "planetary_nebula"@ {
            ObjectType::PlanetaryNebula
        } else if s == "emission_nebula"@ {
            ObjectType::EmissionNebula
        } else if s == "reflection_nebula"@ {
            ObjectType::ReflectionNebula
        } else if s == "dark_nebula"@ {
            ObjectType::DarkNebula
        } else if s == "open_cluster"@ {
            ObjectType::OpenCluster
        } else if s == "globular_cluster"@ {
            ObjectType::GlobularCluster
        } else if s == "supernova_remnant"@ {
            ObjectType::SupernovaRemnant
        } else if s == "galaxy_cluster"@ {
            ObjectType::GalaxyCluster
        } else if s == "double_star"@ {
            ObjectType::DoubleStar
        } else if s == "asterism"@ {
            ObjectType::Asterism
        } else {
            ObjectType::Other
        }
    }

    /// The `snake_case` stored form of this object type.
    pub fn as_wire(self) -> (r: &'static str)
        ensures
            r@ == self.wire(),
    {
        match self {
            ObjectType::Galaxy => "galaxy",
            ObjectType::PlanetaryNebula => "planetary_nebula",
            ObjectType::EmissionNebula => "emission_nebula",
            ObjectType::ReflectionNebula => "reflection_nebula",
            ObjectType::DarkNebula => "dark_nebula",
            ObjectType::OpenCluster => "open_cluster",
            ObjectType::GlobularCluster => "globular_cluster",
            ObjectType::SupernovaRemnant => "supernova_remnant",
            ObjectType::GalaxyCluster => "galaxy_cluster",
            ObjectType::DoubleStar => "double_star",
            ObjectType::Asterism => "asterism",
            ObjectType::Other => "other",
        }
    }

    /// Read a stored form; unknown text reads as [`ObjectType::Other`].
    pub fn from_wire(s: &str) -> (r: Self)
        ensures
            r == Self::of_wire(s@),
    {
        if same_text(s, "galaxy") {
            ObjectType::Galaxy
        } else if same_text(s, "planetary_nebula") {
            ObjectType::PlanetaryNebula
        } else if same_text(s, "emission_nebula") {
            ObjectType::EmissionNebula
        } else if same_text(s, "reflection_nebula") {
            ObjectType::ReflectionNebula
        } else if same_text(s, "dark_nebula") {
            ObjectType::DarkNebula
        } else if same_text(s, "open_cluster") {
            ObjectType::OpenCluster
        } else if same_text(s, "globular_cluster") {
            ObjectType::GlobularCluster
        } else if same_text(s, "supernova_remnant") {
            ObjectType::SupernovaRemnant
        } else if same_text(s, "galaxy_cluster") {
            ObjectType::GalaxyCluster
        } else if same_text(s, "double_star") {
            ObjectType::DoubleStar
        } else if same_text(s, "asterism") {
            ObjectType::Asterism
        } else {
            ObjectType::Other
        }
    }

    /// Reading what was written gives the object type back.
    pub proof fn wire_round_trips(self)
        ensures
            Self::of_wire(self.wire()) == self,
    {
        reveal_strlit("galaxy");
        reveal_strlit("planetary_nebula");
        reveal_strlit("emission_nebula");
        reveal_strlit("reflection_nebula");
        reveal_strlit("dark_nebula");
        reveal_strlit("open_cluster");
        reveal_strlit("globular_cluster");
        reveal_strlit("supernova_remnant");
        reveal_strlit("galaxy_cluster");
        reveal_strlit("double_star");
        reveal_strlit("asterism");
        reveal_strlit("other");
        assert("galaxy"@.len() == 6 && "galaxy"@[1] == 'a');
        assert("planetary_nebula"@.len() == 16 && "planetary_nebula"@[0] == 'p');
        assert("emission_nebula"@.len() == 15 && "emission_nebula"@[1] == 'm');
        assert("reflection_nebula"@.len() == 17 && "reflection_nebula"@[1] == 'e');
        assert("dark_nebula"@.len() == 11 && "dark_nebula"@[1] == 'a');
        assert("open_cluster"@.len() == 12 && "open_cluster"@[1] == 'p');
        assert("globular_cluster"@.len() == 16 && "globular_cluster"@[0] == 'g');
        assert("supernova_remnant"@.len() == 17 && "supernova_remnant"@[1] == 'u');
        assert("galaxy_cluster"@.len() == 14 && "galaxy_cluster"@[1] == 'a');
        assert("double_star"@.len() == 11 && "double_star"@[1] == 'o');
        assert("asterism"@.len() == 8 && "asterism"@[1] == 's');
        assert("other"@.len() == 5 && "other"@[1] == 't');
    }
}

/// Galaxies, active and interacting ones among them.
pub open spec fn galaxy_code(code: Seq<char>) -> bool {
    ||| code == "G"@
    ||| code == "GiC"@
    ||| code == "GiG"@
    ||| code == "GiP"@
    ||| code == "IG"@
    ||| code == "PaG"@
    ||| code == "AGN"@
    ||| code == "SBG"@
    ||| code == "rG"@
    ||| code == "LSB"@
    ||| code == "AG?"@
    ||| code == "EmG"@
    ||| code == "BiC"@
    ||| code == "H2G"@
    ||| code == "Sy1"@
    ||| code == "Sy2"@
    ||| code == "SyG"@
    ||| code == "Galaxy"@
}

/// Planetary nebulae.
pub open spec fn planetary_nebula_code(code: Seq<char>) -> bool {
    ||| code == "PN"@
    ||| code == "PN?"@
    ||| code == "pA*"@
    ||| code == "PlanetaryNebula"@
}

/// Emission nebulae: H II regions and emission objects.
pub open spec fn emission_nebula_code(code: Seq<char>) -> bool {
    ||| code == "HII"@
    ||| code == "EmO"@
    ||| code == "ISM"@
    ||| code == "RNe?"@
    ||| code == "EmissionNebula"@
}

/// Reflection nebulae.
pub open spec fn reflection_nebula_code(code: Seq<char>) -> bool {
    ||| code == "RNe"@
    ||| code == "ReflectionNebula"@
}

/// Dark and molecular clouds.
pub open spec fn dark_nebula_code(code: Seq<char>) -> bool {
    ||| code == "DNe"@
    ||| code == "MoC"@
    ||| code == "glb"@
    ||| code == "cor"@
    ||| code == "GNe"@
    ||| code == "DarkNebula"@
}

/// Open clusters; `As*` is a stellar association, no visual asterism.
pub open spec fn open_cluster_code(code: Seq<char>) -> bool {
    ||| code == "OpC"@
    ||| code == "Cl*"@
    ||| code == "As*"@
    ||| code == "OpenCluster"@
}

/// Globular clusters.
pub open spec fn globular_cluster_code(code: Seq<char>) -> bool {
    ||| code == "GlC"@
    ||| code == "GlobularCluster"@
}

/// Supernova remnants.
pub open spec fn supernova_remnant_code(code: Seq<char>) -> bool {
    ||| code == "SNR"@
    ||| code == "SNR?"@
    ||| code == "SuperNovaRemnant"@
    ||| code == "SupernovaRemnant"@
}

/// Clusters of galaxies.
pub open spec fn galaxy_cluster_code(code: Seq<char>) -> bool {
    ||| code == "ClG"@
    ||| code == "GrG"@
    ||| code == "CGG"@
    ||| code == "SCG"@
    ||| code == "GalaxyCluster"@
}

/// Double and multiple stars.
pub open spec fn double_star_code(code: Seq<char>) -> bool {
    ||| code == "**"@
    ||| code == "**?"@
    ||| code == "EB*"@
    ||| code == "SB*"@
    ||| code == "DoubleStar"@
}

/// Visual asterisms, by the long label only.
pub open spec fn asterism_code(code: Seq<char>) -> bool {
    ||| code == "Asterism"@
}

/// The classification of a SIMBAD object-type code, without white space at its
/// ends.
pub open spec fn otype_of(code: Seq<char>) -> ObjectType {
    if galaxy_code(code) {
        ObjectType::Galaxy
    } else if planetary_nebula_code(code) {
        ObjectType::PlanetaryNebula
    } else if emission_nebula_code(code) {
        ObjectType::EmissionNebula
    } else if reflection_nebula_code(code) {
        ObjectType::ReflectionNebula
    } else if dark_nebula_code(code) {
        ObjectType::DarkNebula
    } else if open_cluster_code(code) {
        ObjectType::OpenCluster
    } else if globular_cluster_code(code) {
        ObjectType::GlobularCluster
    } else if supernova_remnant_code(code) {
        ObjectType::SupernovaRemnant
    } else if galaxy_cluster_code(code) {
        ObjectType::GalaxyCluster
    } else if double_star_code(code) {
        ObjectType::DoubleStar
    } else if asterism_code(code) {
        ObjectType::Asterism
    } else {
        ObjectType::Other
    }
}

fn is_galaxy_code(code: &str) -> (r: bool)
    ensures
        r == galaxy_code(code@),
{
    same_text(code, "G")
        || same_text(code, "GiC")
        || same_text(code, "GiG")
        || same_text(code, "GiP")
        || same_text(code, "IG")
        || same_text(code, "PaG")
        || same_text(code, "AGN")
        || same_text(code, "SBG")
        || same_text(code, "rG")
        || same_text(code, "LSB")
        || same_text(code, "AG?")
        || same_text(code, "EmG")
        || same_text(code, "BiC")
        || same_text(code, "H2G")
        || same_text(code, "Sy1")
        || same_text(code, "Sy2")
        || same_text(code, "SyG")
        || same_text(code, "Galaxy")
}

fn is_planetary_nebula_code(code: &str) -> (r: bool)
    ensures
        r == planetary_nebula_code(code@),
{
    same_text(code, "PN")
        || same_text(code, "PN?")
        || same_text(code, "pA*")
        || same_text(code, "PlanetaryNebula")
}

fn is_emission_nebula_code(code: &str) -> (r: bool)
    ensures
        r == emission_nebula_code(code@),
{
    same_text(code, "HII")
        || same_text(code, "EmO")
        || same_text(code, "ISM")
        || same_text(code, "RNe?")
        || same_text(code, "EmissionNebula")
}

fn is_reflection_nebula_code(code: &str) -> (r: bool)
    ensures
        r == reflection_nebula_code(code@),
{
    same_text(code, "RNe")
        || same_text(code, "ReflectionNebula")
}

fn is_dark_nebula_code(code: &str) -> (r: bool)
    ensures
        r == dark_nebula_code(code@),
{
    same_text(code, "DNe")
        || same_text(code, "MoC")
        || same_text(code, "glb")
        || same_text(code, "cor")
        || same_text(code, "GNe")
        || same_text(code, "DarkNebula")
}

fn is_open_cluster_code(code: &str) -> (r: bool)
    ensures
        r == open_cluster_code(code@),
{
    same_text(code, "OpC")
        || same_text(code, "Cl*")
        || same_text(code, "As*")
        || same_text(code, "OpenCluster")
}

fn is_globular_cluster_code(code: &str) -> (r: bool)
    ensures
        r == globular_cluster_code(code@),
{
    same_text(code, "GlC")
        || same_text(code, "GlobularCluster")
}

fn is_supernova_remnant_code(code: &str) -> (r: bool)
    ensures
        r == supernova_remnant_code(code@),
{
    same_text(code, "SNR")
        || same_text(code, "SNR?")
        || same_text(code, "SuperNovaRemnant")
        || same_text(code, "SupernovaRemnant")
}

fn is_galaxy_cluster_code(code: &str) -> (r: bool)
    ensures
        r == galaxy_cluster_code(code@),
{
    same_text(code, "ClG")
        || same_text(code, "GrG")
        || same_text(code, "CGG")
        || same_text(code, "SCG")
        || same_text(code, "GalaxyCluster")
}

fn is_double_star_code(code: &str) -> (r: bool)
    ensures
        r == double_star_code(code@),
{
    same_text(code, "**")
        || same_text(code, "**?")
        || same_text(code, "EB*")
        || same_text(code, "SB*")
        || same_text(code, "DoubleStar")
}

fn is_asterism_code(code: &str) -> (r: bool)
    ensures
        r == asterism_code(code@),
{
    same_text(code, "Asterism")
}

/// Map a raw SIMBAD `otype` to the closed classification. White space at the
/// ends is ignored; an unknown code maps to [`ObjectType::Other`].
pub fn map_otype(otype: &str) -> (r: ObjectType)
    ensures
        r == otype_of(trimmed(otype@)),
{
    let trimmed_code = trim(otype);
    let code = trimmed_code.as_str();
    if is_galaxy_code(code) {
        ObjectType::Galaxy
    } else if is_planetary_nebula_code(code) {
        ObjectType::PlanetaryNebula
    } else if is_emission_nebula_code(code) {
        ObjectType::EmissionNebula
    } else if is_reflection_nebula_code(code) {
        ObjectType::ReflectionNebula
    } else if is_dark_nebula_code(code) {
        ObjectType::DarkNebula
    } else if is_open_cluster_code(code) {
        ObjectType::OpenCluster
    } else if is_globular_cluster_code(code) {
        ObjectType::GlobularCluster
    } else if is_supernova_remnant_code(code) {
        ObjectType::SupernovaRemnant
    } else if is_galaxy_cluster_code(code) {
        ObjectType::GalaxyCluster
    } else if is_double_star_code(code) {
        ObjectType::DoubleStar
    } else if is_asterism_code(code) {
        ObjectType::Asterism
    } else {
        ObjectType::Other
    }
}

// ── TargetSource ─────────────────────────────────────────────────────────────

/// Where an identity comes from.
#[derive(Clone, Copy, Debug, Eq, Hash, Ord, PartialEq, PartialOrd, Structural)]
pub enum TargetSource {
    /// Loaded from a bundled seed index.
    Seed,
    /// Resolved live.
    Resolved,
    /// A manual correction by the user, which wins over the other two.
    UserOverride,
}

impl TargetSource {
    /// The stored form of this source.
    pub open spec fn wire(self) -> Seq<char> {
        match self {
            TargetSource::Seed => "seed"@,
            TargetSource::Resolved => "resolved"@,
            TargetSource::UserOverride => "user-override"@,
        }
    }

    /// The source that a stored form stands for.
    pub open spec fn of_wire(s: Seq<char>) -> Option<TargetSource> {
        if s == "seed"@ {
            Some(TargetSource::Seed)
        } else if s == "resolved"@ {
            Some(TargetSource::Resolved)
        } else if s == "user-override"@ {
            Some(TargetSource::UserOverride)
        } else {
            None
        }
    }

    /// The rank of a source: the higher rank wins.
    pub open spec fn rank(self) -> u8 {
        match self {
            TargetSource::Seed => 0,
            TargetSource::Resolved => 1,
            TargetSource::UserOverride => 2,
        }
    }

    /// Whether a write from `self` may replace a row from `existing`.
    pub open spec fn overwrites(self, existing: Self) -> bool {
        self.rank() >= existing.rank()
    }

    /// The stored form of this source.
    pub fn as_wire(self) -> (r: &'static str)
        ensures
            r@ == self.wire(),
    {
        match self {
            TargetSource::Seed => "seed",
            TargetSource::Resolved => "resolved",
            TargetSource::UserOverride => "user-override",
        }
    }

    /// Read a stored form; `None` for unknown text.
    pub fn from_wire(s: &str) -> (r: Option<Self>)
        ensures
            r == Self::of_wire(s@),
    {
        if same_text(s, "seed") {
            Some(TargetSource::Seed)
        } else if same_text(s, "resolved") {
            Some(TargetSource::Resolved)
        } else if same_text(s, "user-override") {
            Some(TargetSource::UserOverride)
        } else {
            None
        }
    }

    /// Precedence for conflicting writes: the higher wins.
    pub fn precedence(self) -> (r: u8)
        ensures
            r == self.rank(),
    {
        match self {
            TargetSource::Seed => 0,
            TargetSource::Resolved => 1,
            TargetSource::UserOverride => 2,
        }
    }

    /// Whether a write from `self` may replace a row from `existing`: an equal
    /// or higher precedence may.
    pub fn may_overwrite(self, existing: Self) -> (r: bool)
        ensures
            r == self.overwrites(existing),
    {
        self.precedence() >= existing.precedence()
    }

    /// Reading what was written gives the source back.
    pub proof fn wire_round_trips(self)
        ensures
            Self::of_wire(self.wire()) == Some(self),
    {
        reveal_strlit("seed");
        reveal_strlit("resolved");
        reveal_strlit("user-override");
        assert("seed"@.len() == 4);
        assert("resolved"@.len() == 8);
        assert("user-override"@.len() == 13);
    }

    /// The right to overwrite is a total preorder in which a user override
    /// stands above both other sources.
    pub proof fn overwriting_is_a_total_preorder(self, other: Self, third: Self)
        ensures
            self.overwrites(self),
            self.overwrites(other) || other.overwrites(self),
            self.overwrites(other) && other.overwrites(third) ==> self.overwrites(third),
            self.overwrites(other) && other.overwrites(self) ==> self == other,
            TargetSource::UserOverride.overwrites(self),
            self.overwrites(TargetSource::UserOverride) ==> self == TargetSource::UserOverride,
    {
    }
}

// ── AliasKind / ResolvedAlias ────────────────────────────────────────────────

/// The kind of an alias.
#[derive(Clone, Copy, Debug, Eq, Hash, Ord, PartialEq, PartialOrd, Structural)]
pub enum AliasKind {
    /// A catalogue designation (`M 31`, `NGC 224`).
    Designation,
    /// A curated common name (`Andromeda Galaxy`).
    CommonName,
    /// An alias that the user added.
    User,
}

impl AliasKind {
    /// The stored form of this kind.
    pub open spec fn wire(self) -> Seq<char> {
        match self {
            AliasKind::Designation => "designation"@,
            AliasKind::CommonName => "common_name"@,
            AliasKind::User => "user"@,
        }
    }

    /// The kind that a stored form stands for; any other text stands for
    /// [`AliasKind::Designation`].
    pub open spec fn of_wire(s: Seq<char>) -> AliasKind {
        if s == "common_name"@ {
            AliasKind::CommonName
        } else if s == "user"@ {
            AliasKind::User
        } else {
            AliasKind::Designation
        }
    }

    /// The stored form of this kind.
    pub fn as_wire(self) -> (r: &'static str)
        ensures
            r@ == self.wire(),
    {
        match self {
            AliasKind::Designation => "designation",
            AliasKind::CommonName => "common_name",
            AliasKind::User => "user",
        }
    }

    /// Read a stored form; unknown text reads as [`AliasKind::Designation`].
    pub fn from_wire(s: &str) -> (r: Self)
        ensures
            r == Self::of_wire(s@),
    {
        if same_text(s, "common_name") {
            AliasKind::CommonName
        } else if same_text(s, "user") {
            AliasKind::User
        } else {
            AliasKind::Designation
        }
    }

    /// Reading what was written gives the kind back.
    pub proof fn wire_round_trips(self)
        ensures
            Self::of_wire(self.wire()) == self,
    {
        reveal_strlit("designation");
        reveal_strlit("common_name");
        reveal_strlit("user");
        assert("designation"@[0] == 'd');
        assert("common_name"@[0] == 'c');
        assert("user"@[0] == 'u');
    }
}

/// The view of a [`ResolvedAlias`].
#[verifier::ext_equal]
pub struct AliasView {
    pub alias: Seq<char>,
    pub normalized: Seq<char>,
    pub kind: AliasKind,
}

impl AliasView {
    /// The alias of a display form, with its normalized form.
    pub open spec fn of(alias: Seq<char>, kind: AliasKind) -> AliasView {
        AliasView { alias, normalized: normalized(alias), kind }
    }
}

/// One name of an identity. The normalized form is what queries are matched
/// against.
#[derive(Debug, Eq, PartialEq)]
pub struct ResolvedAlias {
    /// The name as it is displayed.
    pub alias: String,
    /// Its normalized form.
    pub normalized: String,
    /// Its kind.
    pub kind: AliasKind,
}

impl View for ResolvedAlias {
    type V = AliasView;

    open spec fn view(&self) -> AliasView {
        AliasView { alias: self.alias@, normalized: self.normalized@, kind: self.kind }
    }
}

impl Clone for ResolvedAlias {
    fn clone(&self) -> (r: Self)
        ensures
            r@ == self@,
    {
        ResolvedAlias {
            alias: self.alias.clone(),
            normalized: self.normalized.clone(),
            kind: self.kind,
        }
    }
}

impl ResolvedAlias {
    /// Build an alias, computing its normalized form.
    pub fn new(alias: &str, kind: AliasKind) -> (r: Self)
        ensures
            r@ == AliasView::of(alias@, kind),
    {
        ResolvedAlias { alias: alias.to_owned(), normalized: normalize(alias), kind }
    }
}

/// Aliases are sorted by their display form.
impl Sortable for ResolvedAlias {
    open spec fn after(a: AliasView, b: AliasView) -> bool {
        before(b.alias, a.alias)
    }

    proof fn lemma_after_irreflexive(a: AliasView) {
        lemma_irreflexive(a.alias);
    }

    proof fn lemma_not_after_transitive(a: AliasView, b: AliasView, c: AliasView) {
        lemma_total(a.alias, b.alias);
        lemma_total(b.alias, c.alias);
        if before(c.alias, a.alias) {
            if before(a.alias, b.alias) {
                lemma_transitive(c.alias, a.alias, b.alias);
            }
        }
    }

    proof fn lemma_after_asymmetric(a: AliasView, b: AliasView) {
        lemma_asymmetric(b.alias, a.alias);
    }

    fn is_after(&self, other: &Self) -> (r: bool) {
        goes_before(other.alias.as_str(), self.alias.as_str())
    }
}

/// A copy of a list of aliases.
pub fn copy_aliases(v: &Vec<ResolvedAlias>) -> (out: Vec<ResolvedAlias>)
    ensures
        views(out@) == views(v@),
{
    let mut out: Vec<ResolvedAlias> = Vec::new();
    let mut i: usize = 0;
    while i < v.len()
        invariant
            i <= v@.len(),
            views(out@) == views(v@).take(i as int),
        decreases v@.len() - i,
    {
        let ghost done = out@;
        let item = v[i].clone();
        out.push(item);
        proof {
            assert(views(out@) =~= views(done).push(item@));
            assert(views(v@).take(i + 1) =~= views(v@).take(i as int).push(item@));
        }
        i += 1;
    }
    assert(views(v@).take(v@.len() as int) =~= views(v@));
    out
}

/// Whether `s` holds an alias with the display form `alias`.
pub open spec fn has_display(s: Seq<AliasView>, alias: Seq<char>) -> bool {
    exists|i: int| 0 <= i < s.len() && (#[trigger] s[i]).alias == alias
}

/// Whether `s` holds an alias with the normalized form `form`.
pub open spec fn has_normalized(s: Seq<AliasView>, form: Seq<char>) -> bool {
    exists|i: int| 0 <= i < s.len() && (#[trigger] s[i]).normalized == form
}

/// Whether every alias of `s` has the normalized form of its display form.
pub open spec fn forms_computed(s: Seq<AliasView>) -> bool {
    forall|i: int| 0 <= i < s.len() ==> (#[trigger] s[i]).normalized == normalized(s[i].alias)
}

/// Whether no two aliases of `s` have one normalized form.
pub open spec fn forms_differ(s: Seq<AliasView>) -> bool {
    forall|i: int, j: int|
        0 <= i < j < s.len() ==> (#[trigger] s[i]).normalized != (#[trigger] s[j]).normalized
}

/// Whether no two aliases of `s` have one display form.
pub open spec fn displays_differ(s: Seq<AliasView>) -> bool {
    forall|i: int, j: int|
        0 <= i < j < s.len() ==> (#[trigger] s[i]).alias != (#[trigger] s[j]).alias
}

/// Whether no two aliases of `s` have one display form and one kind.
pub open spec fn names_differ(s: Seq<AliasView>) -> bool {
    forall|i: int, j: int|
        0 <= i < j < s.len() ==> (#[trigger] s[i]).alias != (#[trigger] s[j]).alias || s[i].kind
            != s[j].kind
}

/// Whether `s` holds `alias` as a designation.
pub open spec fn has_designation(s: Seq<AliasView>, alias: Seq<char>) -> bool {
    exists|i: int|
        0 <= i < s.len() && (#[trigger] s[i]).alias == alias && s[i].kind
            == AliasKind::Designation
}

/// The first designation of `s` with the normalized form `form`.
pub open spec fn first_designation(s: Seq<AliasView>, form: Seq<char>) -> Option<AliasView>
    decreases s.len(),
{
    if s.len() == 0 {
        None
    } else {
        match first_designation(s.drop_last(), form) {
            Some(a) => Some(a),
            None => if s.last().normalized == form && s.last().kind == AliasKind::Designation {
                Some(s.last())
            } else {
                None
            },
        }
    }
}

/// Whether `v` holds `alias` as a designation.
pub fn designates(v: &Vec<ResolvedAlias>, alias: &str) -> (r: bool)
    ensures
        r == has_designation(views(v@), alias@),
{
    let mut i: usize = 0;
    while i < v.len()
        invariant
            i <= v@.len(),
            forall|k: int|
                0 <= k < i ==> !((#[trigger] views(v@)[k]).alias == alias@ && views(v@)[k].kind
                    == AliasKind::Designation),
        decreases v@.len() - i,
    {
        if v[i].kind == AliasKind::Designation && same_text(v[i].alias.as_str(), alias) {
            assert(views(v@)[i as int].alias == alias@);
            return true;
        }
        i += 1;
    }
    false
}

/// A copy of the first designation of `v` with the normalized form `form`.
pub fn find_designation(v: &Vec<ResolvedAlias>, form: &str) -> (r: Option<ResolvedAlias>)
    ensures
        match r {
            Some(a) => first_designation(views(v@), form@) == Some(a@),
            None => first_designation(views(v@), form@) is None,
        },
{
    let mut found: Option<ResolvedAlias> = None;
    let mut i: usize = 0;
    assert(views(v@).take(0) =~= Seq::empty());
    while i < v.len()
        invariant
            i <= v@.len(),
            match found {
                Some(a) => first_designation(views(v@).take(i as int), form@) == Some(a@),
                None => first_designation(views(v@).take(i as int), form@) is None,
            },
        decreases v@.len() - i,
    {
        proof {
            assert(views(v@).take(i + 1).drop_last() =~= views(v@).take(i as int));
            assert(views(v@).take(i + 1).last() == v@[i as int]@);
        }
        if found.is_none() && v[i].kind == AliasKind::Designation && same_text(
            v[i].normalized.as_str(),
            form,
        ) {
            found = Some(v[i].clone());
        }
        i += 1;
    }
    assert(views(v@).take(v@.len() as int) =~= views(v@));
    found
}

/// Whether `v` holds an alias with the display form `alias`.
pub fn displays(v: &Vec<ResolvedAlias>, alias: &str) -> (r: bool)
    ensures
        r == has_display(views(v@), alias@),
{
    let mut i: usize = 0;
    while i < v.len()
        invariant
            i <= v@.len(),
            forall|k: int| 0 <= k < i ==> (#[trigger] views(v@)[k]).alias != alias@,
        decreases v@.len() - i,
    {
        if same_text(v[i].alias.as_str(), alias) {
            assert(views(v@)[i as int].alias == alias@);
            return true;
        }
        i += 1;
    }
    false
}

/// Whether `v` holds an alias with the normalized form `form`.
pub fn normalizes(v: &Vec<ResolvedAlias>, form: &str) -> (r: bool)
    ensures
        r == has_normalized(views(v@), form@),
{
    let mut i: usize = 0;
    while i < v.len()
        invariant
            i <= v@.len(),
            forall|k: int| 0 <= k < i ==> (#[trigger] views(v@)[k]).normalized != form@,
        decreases v@.len() - i,
    {
        if same_text(v[i].normalized.as_str(), form) {
            assert(views(v@)[i as int].normalized == form@);
            return true;
        }
        i += 1;
    }
    false
}

// ── ResolvedIdentity / PositionMatch ─────────────────────────────────────────

/// The view of a [`ResolvedIdentity`].
#[verifier::ext_equal]
pub struct IdentityView {
    pub simbad_oid: Option<i64>,
    pub primary_designation: Seq<char>,
    pub common_name: Option<Seq<char>>,
    pub object_type: ObjectType,
    pub otype_raw: Seq<char>,
    pub ra_deg: Double,
    pub dec_deg: Double,
    pub v_mag: Option<Double>,
    pub galdim_majaxis_arcmin: Option<Double>,
    pub galdim_minaxis_arcmin: Option<Double>,
    pub galdim_angle_deg: Option<i16>,
    pub aliases: Seq<AliasView>,
    pub source: TargetSource,
}

/// One canonical identity, as a resolver returns it.
#[derive(Debug, PartialEq)]
pub struct ResolvedIdentity {
    /// SIMBAD physical-object id, the key by which duplicates are found; `None`
    /// for entries that were never resolved online.
    pub simbad_oid: Option<i64>,
    /// Canonical display designation.
    pub primary_designation: String,
    /// Curated common name, where there is one.
    pub common_name: Option<String>,
    /// Closed classification.
    pub object_type: ObjectType,
    /// The raw SIMBAD `otype`.
    pub otype_raw: String,
    /// ICRS J2000 right ascension in degrees.
    pub ra_deg: Double,
    /// ICRS J2000 declination in degrees.
    pub dec_deg: Double,
    /// Johnson V magnitude, where known.
    pub v_mag: Option<Double>,
    /// Major-axis diameter in arcminutes; `None` for a point source.
    pub galdim_majaxis_arcmin: Option<Double>,
    /// Minor-axis diameter in arcminutes; `None` for a point source.
    pub galdim_minaxis_arcmin: Option<Double>,
    /// Position angle of the major axis in degrees; `None` for a point source.
    pub galdim_angle_deg: Option<i16>,
    /// All names of the object.
    pub aliases: Vec<ResolvedAlias>,
    /// Where the identity comes from.
    pub source: TargetSource,
}

impl View for ResolvedIdentity {
    type V = IdentityView;

    open spec fn view(&self) -> IdentityView {
        IdentityView {
            simbad_oid: self.simbad_oid,
            primary_designation: self.primary_designation@,
            common_name: opt_text(self.common_name),
            object_type: self.object_type,
            otype_raw: self.otype_raw@,
            ra_deg: self.ra_deg,
            dec_deg: self.dec_deg,
            v_mag: self.v_mag,
            galdim_majaxis_arcmin: self.galdim_majaxis_arcmin,
            galdim_minaxis_arcmin: self.galdim_minaxis_arcmin,
            galdim_angle_deg: self.galdim_angle_deg,
            aliases: views(self.aliases@),
            source: self.source,
        }
    }
}

impl Clone for ResolvedIdentity {
    fn clone(&self) -> (r: Self)
        ensures
            r@ == self@,
    {
        ResolvedIdentity {
            simbad_oid: self.simbad_oid,
            primary_designation: self.primary_designation.clone(),
            common_name: copy_opt(&self.common_name),
            object_type: self.object_type,
            otype_raw: self.otype_raw.clone(),
            ra_deg: self.ra_deg,
            dec_deg: self.dec_deg,
            v_mag: self.v_mag,
            galdim_majaxis_arcmin: self.galdim_majaxis_arcmin,
            galdim_minaxis_arcmin: self.galdim_minaxis_arcmin,
            galdim_angle_deg: self.galdim_angle_deg,
            aliases: copy_aliases(&self.aliases),
            source: self.source,
        }
    }
}

/// The view of a [`PositionMatch`].
#[verifier::ext_equal]
pub struct PositionView {
    pub identity: IdentityView,
    pub separation_deg: Double,
}

/// One hit of a cone search.
#[derive(Debug, PartialEq)]
pub struct PositionMatch {
    /// The matched identity.
    pub identity: ResolvedIdentity,
    /// Angular separation from the searched position, in degrees.
    pub separation_deg: Double,
}

impl View for PositionMatch {
    type V = PositionView;

    open spec fn view(&self) -> PositionView {
        PositionView { identity: self.identity@, separation_deg: self.separation_deg }
    }
}

impl Clone for PositionMatch {
    fn clone(&self) -> (r: Self)
        ensures
            r@ == self@,
    {
        PositionMatch { identity: self.identity.clone(), separation_deg: self.separation_deg }
    }
}

} // verus!
