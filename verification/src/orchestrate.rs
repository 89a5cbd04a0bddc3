//! Cache-first resolution, user overrides and fuzzy search.
//!
//! A query is answered from the store where any of its aliases matches; only
//! else, and only when online, is the resolver asked, and its answer stored. The
//! decisions are functions of their own ([`plan_resolve`], [`bind_alias`],
//! [`settle`] and others), which a caller with another store or an asynchronous
//! resolver can follow step by step; [`resolve_core`] runs them over the tables
//! of this crate.

use vstd::prelude::*;

use crate::cache::state::{stored_aliases, CacheView, TargetRow, TargetRowView, UpsertView};
use crate::cache::tables::{lemma_logs_chain, lemma_logs_self, CacheTables};
use crate::cache::{CacheError, CachedTarget, CachedView, HitView, SearchHit, RANK_FUZZY};
use crate::caldwell::{caldwell_number, caldwell_to_designation, designation_of, parse_caldwell_number};
use crate::config::ResolverConfig;
use crate::error::{ErrorView, ResolveError};
use crate::float::Single;
use crate::flow::{ResolveEvent, ResolveFlow, ResolveFlowView, ResolveStep, ResolveStepView};
use crate::identity::{hyphenated, is_id_text};
use crate::normalize::{normalize, normalized, token_overlap, tokens};
use crate::number::{decimal, push_decimal};
use crate::order::{before, goes_before, lemma_asymmetric, lemma_irreflexive, lemma_total, lemma_transitive, sort_stably, sorted, views, Sortable};
use crate::resolver::{answer_view, Resolver};
use crate::table::{lemma_put_lookup, lookup};
use crate::text::{byte_len, push_text, texts, trim, trimmed};
use crate::types::{displays, has_display, opt_text, AliasKind, AliasView, IdentityView, ResolvedAlias, ResolvedIdentity, TargetSource};

verus! {

// ── Outcomes ─────────────────────────────────────────────────────────────────

/// Why a query was not resolved.
#[derive(Clone, Copy, Debug, Eq, PartialEq, Structural)]
pub enum UnresolvedReason {
    /// The resolver was unreachable, too slow or switched off; trying again
    /// later makes sense.
    Offline,
    /// There is no such object.
    Unknown,
    /// The query stands for several physical objects.
    Ambiguous,
}

/// The view of a [`Resolution`].
pub enum ResolutionView {
    Resolved(CachedView),
    Unresolved { query: Seq<char>, reason: UnresolvedReason },
}

/// What became of a query.
#[derive(Debug, PartialEq)]
pub enum Resolution {
    /// A target, from the store or resolved and stored.
    Resolved(CachedTarget),
    /// There is none.
    Unresolved {
        /// The query as it was given.
        query: String,
        /// Why there is none.
        reason: UnresolvedReason,
    },
}

impl View for Resolution {
    type V = ResolutionView;

    open spec fn view(&self) -> ResolutionView {
        match self {
            Resolution::Resolved(t) => ResolutionView::Resolved(t@),
            Resolution::Unresolved { query, reason } => ResolutionView::Unresolved {
                query: query@,
                reason: *reason,
            },
        }
    }
}

impl Clone for Resolution {
    fn clone(&self) -> (r: Self)
        ensures
            r@ == self@,
    {
        match self {
            Resolution::Resolved(t) => Resolution::Resolved(t.clone()),
            Resolution::Unresolved { query, reason } => Resolution::Unresolved {
                query: query.clone(),
                reason: *reason,
            },
        }
    }
}

/// The reason that a resolver's error stands for: one that may pass means
/// offline.
pub open spec fn reason_of(e: ErrorView) -> UnresolvedReason {
    if e.transient() {
        UnresolvedReason::Offline
    } else if e is Ambiguous {
        UnresolvedReason::Ambiguous
    } else {
        UnresolvedReason::Unknown
    }
}

/// The reason that a resolver's error stands for.
pub fn reason_for(e: &ResolveError) -> (r: UnresolvedReason)
    ensures
        r == reason_of(e@),
{
    if e.is_transient() {
        UnresolvedReason::Offline
    } else {
        match e {
            ResolveError::Ambiguous { .. } => UnresolvedReason::Ambiguous,
            _ => UnresolvedReason::Unknown,
        }
    }
}

// ── The plan of a query ──────────────────────────────────────────────────────

/// The view of a [`ResolvePlan`].
#[verifier::ext_equal]
pub struct PlanView {
    pub query: Seq<char>,
    pub simbad_query: Seq<char>,
    pub caldwell_alias: Option<Seq<char>>,
    pub keys: Seq<Seq<char>>,
}

/// How a query is resolved.
#[derive(Debug, Eq, PartialEq)]
pub struct ResolvePlan {
    /// The query as it was given.
    pub query: String,
    /// What the resolver is asked for.
    pub simbad_query: String,
    /// The Caldwell designation that the object gets as an alias.
    pub caldwell_alias: Option<String>,
    /// The normalized forms to look up first, in order.
    pub keys: Vec<String>,
}

impl View for ResolvePlan {
    type V = PlanView;

    open spec fn view(&self) -> PlanView {
        PlanView {
            query: self.query@,
            simbad_query: self.simbad_query@,
            caldwell_alias: opt_text(self.caldwell_alias),
            keys: texts(self.keys@),
        }
    }
}

/// `s` with `key` added, unless that is empty.
pub open spec fn with_key(s: Seq<Seq<char>>, key: Seq<char>) -> Seq<Seq<char>> {
    if key.len() == 0 {
        s
    } else {
        s.push(key)
    }
}

/// The plan for a query that the resolver is asked `simbad_query` for.
pub open spec fn plan_with(
    query: Seq<char>,
    simbad_query: Seq<char>,
    caldwell_alias: Option<Seq<char>>,
) -> PlanView {
    PlanView {
        query,
        simbad_query,
        caldwell_alias,
        keys: with_key(
            with_key(Seq::empty(), normalized(query)),
            normalized(simbad_query),
        ),
    }
}

/// How a query is resolved. One for an object of the Caldwell catalogue is
/// translated; one for the object without a designation is answered at once.
pub open spec fn plan_of(query: Seq<char>) -> Result<PlanView, ResolutionView> {
    match caldwell_number(query) {
        None => Ok(plan_with(query, query, None)),
        Some(n) => match designation_of(n) {
            Some(d) => Ok(plan_with(query, d, Some("C "@ + decimal(n as nat)))),
            None => Err(
                ResolutionView::Unresolved { query, reason: UnresolvedReason::Unknown },
            ),
        },
    }
}

fn make_plan(query: &str, simbad_query: &str, caldwell_alias: Option<String>) -> (r: ResolvePlan)
    ensures
        r@ == plan_with(query@, simbad_query@, opt_text(caldwell_alias)),
{
    let mut keys: Vec<String> = Vec::new();
    assert(texts(keys@) =~= Seq::empty());
    let first = normalize(query);
    if !first.as_str().is_empty() {
        let ghost had = keys@;
        keys.push(first);
        assert(texts(keys@) =~= texts(had).push(normalized(query@)));
    }
    let second = normalize(simbad_query);
    if !second.as_str().is_empty() {
        let ghost had = keys@;
        keys.push(second);
        assert(texts(keys@) =~= texts(had).push(normalized(simbad_query@)));
    }
    ResolvePlan {
        query: query.to_owned(),
        simbad_query: simbad_query.to_owned(),
        caldwell_alias,
        keys,
    }
}

/// How a query is resolved, or what it comes to at once.
pub fn plan_resolve(query: &str) -> (r: Result<ResolvePlan, Resolution>)
    ensures
        match r {
            Ok(plan) => plan_of(query@) == Ok::<_, ResolutionView>(plan@),
            Err(resolution) => plan_of(query@) == Err::<PlanView, _>(resolution@),
        },
{
    match parse_caldwell_number(query) {
        None => Ok(make_plan(query, query, None)),
        Some(n) => match caldwell_to_designation(n) {
            Some(d) => {
                let mut alias = String::new();
                push_text(&mut alias, "C ");
                push_decimal(&mut alias, n as u64);
                assert(alias@ =~= "C "@ + decimal(n as nat));
                Ok(make_plan(query, d, Some(alias)))
            },
            None => Err(
                Resolution::Unresolved {
                    query: query.to_owned(),
                    reason: UnresolvedReason::Unknown,
                },
            ),
        },
    }
}

/// An identity with the Caldwell designation among its aliases.
pub open spec fn bound(identity: IdentityView, alias: Option<Seq<char>>) -> IdentityView {
    match alias {
        Some(c) => if has_display(identity.aliases, c) {
            identity
        } else {
            IdentityView {
                aliases: identity.aliases.push(AliasView::of(c, AliasKind::Designation)),
                ..identity
            }
        },
        None => identity,
    }
}

/// Bind the Caldwell designation of a plan to the identity that was resolved for
/// it.
pub fn bind_alias(plan: &ResolvePlan, identity: ResolvedIdentity) -> (r: ResolvedIdentity)
    ensures
        r@ == bound(identity@, plan@.caldwell_alias),
{
    let mut identity = identity;
    if let Some(c) = &plan.caldwell_alias {
        if !displays(&identity.aliases, c.as_str()) {
            let ghost had = identity.aliases@;
            let item = ResolvedAlias::new(c.as_str(), AliasKind::Designation);
            identity.aliases.push(item);
            assert(views(identity.aliases@) =~= views(had).push(item@));
        }
    }
    identity
}

/// What a query comes to when nothing stored matches and online resolution is
/// switched off.
pub fn answer_offline(plan: &ResolvePlan) -> (r: Resolution)
    ensures
        r@ == (ResolutionView::Unresolved {
            query: plan@.query,
            reason: UnresolvedReason::Offline,
        }),
{
    Resolution::Unresolved { query: plan.query.clone(), reason: UnresolvedReason::Offline }
}

/// What a query comes to when the resolver failed.
pub fn answer_failure(plan: &ResolvePlan, e: &ResolveError) -> (r: Resolution)
    ensures
        r@ == (ResolutionView::Unresolved { query: plan@.query, reason: reason_of(e@) }),
{
    Resolution::Unresolved { query: plan.query.clone(), reason: reason_for(e) }
}

/// What a query comes to once the identity was stored and read back.
pub open spec fn settled(query: Seq<char>, target: Option<CachedView>) -> ResolutionView {
    match target {
        Some(t) => ResolutionView::Resolved(t),
        None => ResolutionView::Unresolved { query, reason: UnresolvedReason::Unknown },
    }
}

/// What a query comes to once the identity was stored and read back.
pub fn settle(plan: &ResolvePlan, target: Option<CachedTarget>) -> (r: Resolution)
    ensures
        r@ == settled(
            plan@.query,
            match target {
                Some(t) => Some(t@),
                None => None,
            },
        ),
{
    match target {
        Some(t) => Resolution::Resolved(t),
        None => Resolution::Unresolved {
            query: plan.query.clone(),
            reason: UnresolvedReason::Unknown,
        },
    }
}

// ── Resolving ────────────────────────────────────────────────────────────────

impl CacheView {
    /// The target that the keys from `i` on find first; an error at the first
    /// stored id that is no UUID.
    pub open spec fn first_of(self, keys: Seq<Seq<char>>, i: int) -> Result<
        Option<CachedView>,
        Seq<char>,
    >
        decreases keys.len() - i,
    {
        if i < 0 || i >= keys.len() {
            Ok(None)
        } else {
            match self.by_form(keys[i]) {
                Err(key) => Err(key),
                Ok(Some(t)) => Ok(Some(t)),
                Ok(None) => self.first_of(keys, i + 1),
            }
        }
    }
}

/// Whether a call came out as `s`: with that value, or with the key that is no
/// UUID.
pub open spec fn comes_to(
    r: Result<Resolution, CacheError>,
    s: Result<ResolutionView, Seq<char>>,
) -> bool {
    match r {
        Ok(resolution) => s == Ok::<_, Seq<char>>(resolution@),
        Err(e) => e matches CacheError::InvalidUuid(key, _) && s == Err::<ResolutionView, _>(key@),
    }
}

/// What a query comes to once the resolver has answered, and the state in which
/// that leaves the store, given the upsert that is done where it answered with
/// an identity.
pub open spec fn after_answer(
    state: CacheView,
    plan: PlanView,
    namespace: u128,
    answer: Result<IdentityView, ErrorView>,
    u: UpsertView,
) -> (Result<ResolutionView, Seq<char>>, CacheView) {
    match answer {
        Err(e) => (
            Ok(ResolutionView::Unresolved { query: plan.query, reason: reason_of(e) }),
            state,
        ),
        Ok(identity) => match state.upsert_id(u.identity, namespace) {
            None => (Err(state.decision(u.identity, namespace).0), state),
            Some(id) => {
                let next = state.upserted(u, namespace);
                (Ok(settled(plan.query, next.by_id(id))), next)
            },
        },
    }
}

/// Whether `u` is an upsert of what the resolver answered, with drawn alias ids.
pub open spec fn stores(
    u: UpsertView,
    plan: PlanView,
    answer: Result<IdentityView, ErrorView>,
) -> bool {
    answer matches Ok(identity) ==> u.identity == bound(identity, plan.caldwell_alias) && u.drawn()
}

/// Whether resolving `query` may come to `r`, leaving the resolver and the state
/// of the store as they are `after`: an untranslatable query, a stored one and
/// one that is asked offline leave both alone; any other asks the resolver once.
pub open spec fn resolves<R: Resolver>(
    resolver: R,
    state: CacheView,
    config: ResolverConfig,
    query: Seq<char>,
    r: Result<Resolution, CacheError>,
    resolver_after: R,
    state_after: CacheView,
) -> bool {
    match plan_of(query) {
        Err(resolution) => {
            &&& comes_to(r, Ok(resolution))
            &&& state_after == state
            &&& resolver_after == resolver
        },
        Ok(plan) => match state.first_of(plan.keys, 0) {
            Err(key) => {
                &&& comes_to(r, Err(key))
                &&& state_after == state
                &&& resolver_after == resolver
            },
            Ok(Some(t)) => {
                &&& comes_to(r, Ok(ResolutionView::Resolved(t)))
                &&& state_after == state
                &&& resolver_after == resolver
            },
            Ok(None) => if !config.online_enabled {
                &&& comes_to(
                    r,
                    Ok(
                        ResolutionView::Unresolved { query, reason: UnresolvedReason::Offline },
                    ),
                )
                &&& state_after == state
                &&& resolver_after == resolver
            } else {
                exists|answer: Result<IdentityView, ErrorView>, u: UpsertView|
                    {
                        &&& #[trigger] stores(u, plan, answer)
                        &&& resolver.answers(plan.simbad_query, answer, resolver_after)
                        &&& comes_to(
                            r,
                            after_answer(state, plan, config.namespace, answer, u).0,
                        )
                        &&& state_after == after_answer(
                            state,
                            plan,
                            config.namespace,
                            answer,
                            u,
                        ).1
                    }
            },
        },
    }
}

/// Resolve a query: from the store where a key of its plan matches; else, when
/// online, by asking the resolver once and storing what it answers. The resolver
/// and the store are left as they are in every other case.
pub fn resolve_core<R: Resolver>(
    resolver: &mut R,
    cache: &mut CacheTables,
    config: &ResolverConfig,
    query: &str,
) -> (r: Result<Resolution, CacheError>)
    requires
        old(cache).wf(),
    ensures
        final(cache).wf(),
        final(cache).logs_since(old(cache)),
        resolves(
            *old(resolver),
            old(cache)@,
            *config,
            query@,
            r,
            *final(resolver),
            final(cache)@,
        ),
{
    let ghost start = *cache;
    let ghost first = *resolver;
    let ghost mut given: Result<IdentityView, ErrorView> = arbitrary();
    let ghost mut written: UpsertView = arbitrary();
    proof {
        lemma_logs_self(start);
    }
    let mut step = ResolveFlow::start(query, config.online_enabled);
    loop
        invariant
            start == *old(cache),
            first == *old(resolver),
            cache.wf(),
            cache.logs_since(&start),
            follows(
                first,
                start@,
                *config,
                query@,
                step@,
                given,
                written,
                *resolver,
                cache@,
            ),
        decreases steps_left(step@),
    {
        let flow = match step {
            ResolveStep::Finish(r) => {
                return Ok(r);
            },
            ResolveStep::Do(flow) => flow,
        };
        let ghost now = *cache;
        let event = match &flow {
            ResolveFlow::LookUp { key, .. } => match cache.get_by_normalized(key.as_str()) {
                Ok(found) => ResolveEvent::Found(found),
                Err(e) => {
                    return Err(e);
                },
            },
            ResolveFlow::Ask { plan } => {
                let answer = resolver.resolve(plan.simbad_query.as_str());
                proof {
                    given = answer_view(answer);
                    if given is Err {
                        assert(stores(written, plan@, given));
                    }
                }
                ResolveEvent::Answered(answer)
            },
            ResolveFlow::Store { plan, identity } => {
                match cache.upsert(identity, config.namespace) {
                    Ok((id, _)) => {
                        proof {
                            written = choose|u: UpsertView|
                                u.identity == identity@ && u.drawn() && cache@
                                    == #[trigger] start@.upserted(u, config.namespace);
                            lemma_logs_chain(start, now, *cache);
                            assert(stores(written, plan@, given));
                        }
                        ResolveEvent::Stored(id)
                    },
                    Err(e) => {
                        proof {
                            let u = some_upsert(identity@);
                            reveal_strlit("1970-01-01T00:00:00Z");
                            assert forall|k: int| 0 <= k < u.alias_ids.len() implies is_id_text(
                                #[trigger] u.alias_ids[k],
                            ) by {
                                assert(u.alias_ids[k] == hyphenated(0));
                            }
                            assert(stores(u, plan@, given));
                            lemma_logs_chain(start, now, *cache);
                        }
                        return Err(e);
                    },
                }
            },
            ResolveFlow::Read { id, .. } => ResolveEvent::Found(cache.get_by_id(*id)),
        };
        proof {
            if let ResolveFlowView::LookUp { plan, at, key, online } = flow@ {
                reveal_with_fuel(CacheView::first_of, 2);
                assert(start@.first_of(plan.keys, at) == match start@.by_form(key) {
                    Err(k) => Err(k),
                    Ok(Some(t)) => Ok(Some(t)),
                    Ok(None) => start@.first_of(plan.keys, at + 1),
                });
            }
        }
        step = flow.advance(event);
    }
}

/// An upsert of an identity, with some ids for its aliases.
spec fn some_upsert(identity: IdentityView) -> UpsertView {
    UpsertView {
        identity,
        resolved_at: "1970-01-01T00:00:00Z"@,
        alias_ids: Seq::new(stored_aliases(identity).len(), |k: int| hyphenated(0)),
    }
}

/// How many more events a query takes at most.
spec fn steps_left(step: ResolveStepView) -> int {
    match step {
        ResolveStepView::Do(ResolveFlowView::LookUp { plan, at, .. }) => plan.keys.len() - at + 3,
        ResolveStepView::Do(ResolveFlowView::Ask { .. }) => 3,
        ResolveStepView::Do(ResolveFlowView::Store { .. }) => 2,
        ResolveStepView::Do(ResolveFlowView::Read { .. }) => 1,
        ResolveStepView::Finish(_) => 0,
    }
}

/// Whether the resolution of `query`, begun with the resolver `first` and the
/// store `start`, may stand at `step` with the resolver and the store as they are
/// `now`: the resolver has answered `given` where it was asked, and `written` was
/// stored where it answered with an identity.
spec fn follows<R: Resolver>(
    first: R,
    start: CacheView,
    config: ResolverConfig,
    query: Seq<char>,
    step: ResolveStepView,
    given: Result<IdentityView, ErrorView>,
    written: UpsertView,
    resolver_now: R,
    now: CacheView,
) -> bool {
    match step {
        ResolveStepView::Finish(r) => forall|resolution: Resolution|
            resolution@ == r ==> #[trigger] resolves(
                first,
                start,
                config,
                query,
                Ok(resolution),
                resolver_now,
                now,
            ),
        ResolveStepView::Do(ResolveFlowView::LookUp { plan, at, key, online }) => {
            &&& plan_of(query) == Ok::<_, ResolutionView>(plan)
            &&& online == config.online_enabled
            &&& 0 <= at < plan.keys.len()
            &&& key == plan.keys[at]
            &&& start.first_of(plan.keys, 0) == start.first_of(plan.keys, at)
            &&& resolver_now == first
            &&& now == start
        },
        ResolveStepView::Do(ResolveFlowView::Ask { plan }) => {
            &&& plan_of(query) == Ok::<_, ResolutionView>(plan)
            &&& config.online_enabled
            &&& start.first_of(plan.keys, 0) == Ok::<Option<CachedView>, Seq<char>>(None)
            &&& resolver_now == first
            &&& now == start
        },
        ResolveStepView::Do(ResolveFlowView::Store { plan, identity }) => {
            &&& plan_of(query) == Ok::<_, ResolutionView>(plan)
            &&& config.online_enabled
            &&& start.first_of(plan.keys, 0) == Ok::<Option<CachedView>, Seq<char>>(None)
            &&& given matches Ok(answered) && identity == bound(answered, plan.caldwell_alias)
            &&& first.answers(plan.simbad_query, given, resolver_now)
            &&& now == start
        },
        ResolveStepView::Do(ResolveFlowView::Read { plan, id }) => {
            &&& plan_of(query) == Ok::<_, ResolutionView>(plan)
            &&& config.online_enabled
            &&& start.first_of(plan.keys, 0) == Ok::<Option<CachedView>, Seq<char>>(None)
            &&& given is Ok
            &&& stores(written, plan, given)
            &&& first.answers(plan.simbad_query, given, resolver_now)
            &&& start.upsert_id(written.identity, config.namespace) == Some(id)
            &&& now == start.upserted(written, config.namespace)
        },
    }
}

// ── User overrides ───────────────────────────────────────────────────────────

/// The identity of a target as the user's authoritative choice, with `alias`
/// among its names.
pub open spec fn overridden(target: CachedView, alias: Seq<char>) -> IdentityView {
    let identity = target.identity();
    IdentityView {
        source: TargetSource::UserOverride,
        aliases: if trimmed(alias).len() > 0 && !has_display(identity.aliases, alias) {
            identity.aliases.push(AliasView::of(alias, AliasKind::User))
        } else {
            identity.aliases
        },
        ..identity
    }
}

/// The identity of a target as the user's authoritative choice: it gets `alias`
/// as a name, unless that is blank or a name of it already.
pub fn override_identity(target: &CachedTarget, alias: &str) -> (r: ResolvedIdentity)
    ensures
        r@ == overridden(target@, alias@),
{
    let mut identity = target.to_identity();
    identity.source = TargetSource::UserOverride;
    if !trim(alias).as_str().is_empty() && !displays(&identity.aliases, alias) {
        let ghost had = identity.aliases@;
        let item = ResolvedAlias::new(alias, AliasKind::User);
        identity.aliases.push(item);
        assert(views(identity.aliases@) =~= views(had).push(item@));
    }
    identity
}

// ── Fuzzy search ─────────────────────────────────────────────────────────────

/// The view of a [`Scored`].
#[verifier::ext_equal]
pub struct ScoredView {
    pub score: Single,
    pub normalized_len: usize,
    pub hit: HitView,
}

/// A fuzzy hit, with what it is ordered by.
pub struct Scored {
    score: Single,
    normalized_len: usize,
    hit: SearchHit,
}

impl View for Scored {
    type V = ScoredView;

    closed spec fn view(&self) -> ScoredView {
        ScoredView {
            score: self.score,
            normalized_len: self.normalized_len,
            hit: self.hit@,
        }
    }
}

/// Fuzzy hits are ordered by score, the best first, then by the length of the
/// alias, then by the designation of the target.
impl Sortable for Scored {
    open spec fn after(a: ScoredView, b: ScoredView) -> bool {
        ||| a.score.total_rank() < b.score.total_rank()
        ||| a.score.total_rank() == b.score.total_rank() && a.normalized_len > b.normalized_len
        ||| a.score.total_rank() == b.score.total_rank() && a.normalized_len == b.normalized_len
            && before(b.hit.target.primary_designation, a.hit.target.primary_designation)
    }

    proof fn lemma_after_irreflexive(a: ScoredView) {
        lemma_irreflexive(a.hit.target.primary_designation);
    }

    proof fn lemma_not_after_transitive(a: ScoredView, b: ScoredView, c: ScoredView) {
        let x = a.hit.target.primary_designation;
        let y = b.hit.target.primary_designation;
        let z = c.hit.target.primary_designation;
        lemma_total(x, y);
        if before(z, x) && before(x, y) {
            lemma_transitive(z, x, y);
        }
    }

    proof fn lemma_after_asymmetric(a: ScoredView, b: ScoredView) {
        let x = a.hit.target.primary_designation;
        let y = b.hit.target.primary_designation;
        if before(y, x) {
            lemma_asymmetric(y, x);
        }
    }

    fn is_after(&self, other: &Self) -> (r: bool) {
        let a: i64 = self.score.total_place();
        let b: i64 = other.score.total_place();
        a < b || (a == b && self.normalized_len > other.normalized_len) || (a == b
            && self.normalized_len == other.normalized_len && goes_before(
            other.hit.target.primary_designation.as_str(),
            self.hit.target.primary_designation.as_str(),
        ))
    }
}

/// The score of alias `j`, where one is given.
pub open spec fn score_at(scores: Seq<Single>, j: int) -> Option<Single> {
    if 0 <= j < scores.len() {
        Some(scores[j])
    } else {
        None
    }
}

/// The best of the first `n` aliases with a score of at least `min`: its score
/// and its place. Of equal scores the first alias has it.
pub open spec fn best_alias(scores: Seq<Single>, min: Single, n: int) -> Option<(Single, int)>
    decreases n,
{
    if n <= 0 {
        None
    } else {
        let front = best_alias(scores, min, n - 1);
        match score_at(scores, n - 1) {
            None => front,
            Some(score) => if score.at_least(min) && match front {
                None => true,
                Some((best, _)) => score.above(best),
            } {
                Some((score, n - 1))
            } else {
                front
            },
        }
    }
}

/// The scores of target `i`.
pub open spec fn scores_at(scores: Seq<Vec<Single>>, i: int) -> Seq<Single> {
    if 0 <= i < scores.len() {
        scores[i]@
    } else {
        Seq::empty()
    }
}

/// Whether `hits` has the target with the id `id`.
pub open spec fn has_target(hits: Seq<HitView>, id: u128) -> bool {
    exists|i: int| 0 <= i < hits.len() && (#[trigger] hits[i]).target.id == id
}

/// The fuzzy hits among the first `n` targets: those that are no hits yet and
/// have an alias with a score of at least `min`.
pub open spec fn scored_targets(
    hits: Seq<HitView>,
    targets: Seq<CachedView>,
    scores: Seq<Vec<Single>>,
    min: Single,
    n: int,
) -> Seq<ScoredView>
    decreases n,
{
    if n <= 0 {
        Seq::empty()
    } else {
        let front = scored_targets(hits, targets, scores, min, n - 1);
        let target = targets[n - 1];
        if has_target(hits, target.id) {
            front
        } else {
            match best_alias(scores_at(scores, n - 1), min, target.aliases.len() as int) {
                None => front,
                Some((score, j)) => front.push(
                    ScoredView {
                        score,
                        normalized_len: byte_len(target.aliases[j].normalized),
                        hit: HitView {
                            target,
                            matched_alias: target.aliases[j].alias,
                            rank: RANK_FUZZY,
                        },
                    },
                ),
            }
        }
    }
}

/// The first `n` of the hits of `s`.
pub open spec fn hits_of(s: Seq<ScoredView>, n: int) -> Seq<HitView> {
    s.take(n).map_values(|x: ScoredView| x.hit)
}

/// `hits`, filled up to `limit` with fuzzy hits, the best first.
pub open spec fn filled(
    hits: Seq<HitView>,
    targets: Seq<CachedView>,
    scores: Seq<Vec<Single>>,
    min: Single,
    limit: int,
) -> Seq<HitView> {
    if hits.len() >= limit {
        hits
    } else {
        let best = sorted::<Scored>(
            scored_targets(hits, targets, scores, min, targets.len() as int),
        );
        let room = limit - hits.len();
        hits + hits_of(
            best,
            if room < best.len() {
                room
            } else {
                best.len() as int
            },
        )
    }
}

fn find_best(scores: &Vec<Single>, min: Single, n: usize) -> (r: Option<(Single, usize)>)
    ensures
        match r {
            Some((score, j)) => best_alias(scores@, min, n as int) == Some((score, j as int)) && j
                < n,
            None => best_alias(scores@, min, n as int) is None,
        },
{
    let mut best: Option<(Single, usize)> = None;
    let mut i: usize = 0;
    while i < n
        invariant
            i <= n,
            match best {
                Some((score, j)) => best_alias(scores@, min, i as int) == Some((score, j as int))
                    && j < i,
                None => best_alias(scores@, min, i as int) is None,
            },
        decreases n - i,
    {
        if i < scores.len() {
            let score = scores[i];
            let wins = match best {
                None => true,
                Some((prev, _)) => score.is_above(prev),
            };
            if score.is_at_least(min) && wins {
                best = Some((score, i));
            }
        }
        i += 1;
    }
    best
}

fn contains_target(hits: &Vec<SearchHit>, id: u128) -> (r: bool)
    ensures
        r == has_target(views(hits@), id),
{
    let mut i: usize = 0;
    while i < hits.len()
        invariant
            i <= hits@.len(),
            forall|k: int| 0 <= k < i ==> (#[trigger] views(hits@)[k]).target.id != id,
        decreases hits@.len() - i,
    {
        if hits[i].target.id == id {
            assert(views(hits@)[i as int].target.id == id);
            return true;
        }
        i += 1;
    }
    false
}

/// Fill `hits` up to `limit` with fuzzy hits among `targets`, the best first.
/// `scores` holds, for every target and every one of its aliases, the token-set
/// similarity of the alias and the query.
pub fn fill_with_fuzzy(
    hits: Vec<SearchHit>,
    targets: Vec<CachedTarget>,
    scores: &Vec<Vec<Single>>,
    min: Single,
    limit: usize,
) -> (out: Vec<SearchHit>)
    ensures
        views(out@) == filled(views(hits@), views(targets@), scores@, min, limit as int),
{
    let ghost h = views(hits@);
    let ghost t = views(targets@);
    assert(h.len() == hits@.len());
    let mut out = hits;
    if out.len() >= limit {
        return out;
    }
    let mut scored: Vec<Scored> = Vec::new();
    let mut i: usize = 0;
    assert(views(scored@) =~= Seq::empty());
    while i < targets.len()
        invariant
            i <= targets@.len(),
            h == views(out@),
            t == views(targets@),
            views(scored@) == scored_targets(h, t, scores@, min, i as int),
        decreases targets@.len() - i,
    {
        let target = &targets[i];
        let ghost done = scored@;
        assert(target@ == t[i as int]);
        if !contains_target(&out, target.id) {
            let none: Vec<Single> = Vec::new();
            assert(none@ =~= Seq::empty());
            let given = if i < scores.len() {
                &scores[i]
            } else {
                &none
            };
            assert(given@ == scores_at(scores@, i as int));
            assert(t[i as int].aliases.len() == target.aliases@.len());
            if let Some((score, j)) = find_best(given, min, target.aliases.len()) {
                let alias = &target.aliases[j];
                assert(alias@ == t[i as int].aliases[j as int]);
                let item = Scored {
                    score,
                    normalized_len: alias.normalized.as_str().len(),
                    hit: SearchHit {
                        target: target.clone(),
                        matched_alias: alias.alias.clone(),
                        rank: RANK_FUZZY,
                    },
                };
                scored.push(item);
                assert(views(scored@) =~= views(done).push(item@));
            }
        }
        i += 1;
    }
    let best = sort_stably(scored);
    let ghost b = views(best@);
    let room: usize = limit - out.len();
    let n: usize = if room < best.len() {
        room
    } else {
        best.len()
    };
    assert(b.len() == best@.len());
    let mut k: usize = 0;
    assert(h + hits_of(b, 0) =~= h);
    while k < n
        invariant
            k <= n <= best@.len(),
            b == views(best@),
            views(out@) == h + hits_of(b, k as int),
        decreases n - k,
    {
        let ghost done = out@;
        let item = &best[k].hit;
        assert(best@[k as int]@ == b[k as int]);
        let hit = SearchHit {
            target: item.target.clone(),
            matched_alias: item.matched_alias.clone(),
            rank: item.rank,
        };
        out.push(hit);
        proof {
            assert(views(out@) =~= views(done).push(hit@));
            assert(hits_of(b, k + 1) =~= hits_of(b, k as int).push(b[k as int].hit));
            assert(views(out@) =~= h + hits_of(b, k + 1));
        }
        k += 1;
    }
    out
}

/// The overlaps of a normalized query with the aliases of a target, one for
/// each alias: how many words they share, and how many they have between them.
pub fn alias_overlaps(q: &str, target: &CachedTarget) -> (out: Vec<(u128, u128)>)
    ensures
        out@.len() == target@.aliases.len(),
        forall|j: int|
            0 <= j < out@.len() ==> {
                let form = target@.aliases[j].normalized;
                &&& (#[trigger] out@[j]).0 == tokens(q@).intersect(tokens(form)).len()
                &&& out@[j].1 == tokens(q@).union(tokens(form)).len()
            },
{
    let mut out: Vec<(u128, u128)> = Vec::new();
    let mut j: usize = 0;
    while j < target.aliases.len()
        invariant
            j <= target.aliases@.len(),
            out@.len() == j,
            forall|k: int|
                0 <= k < j ==> {
                    let form = target@.aliases[k].normalized;
                    &&& (#[trigger] out@[k]).0 == tokens(q@).intersect(tokens(form)).len()
                    &&& out@[k].1 == tokens(q@).union(tokens(form)).len()
                },
        decreases target.aliases@.len() - j,
    {
        out.push(token_overlap(q, target.aliases[j].normalized.as_str()));
        j += 1;
    }
    out
}

// ── The facade ───────────────────────────────────────────────────────────────

/// A path of the file system, which this crate hands through.
#[verifier::external_type_specification]
#[verifier::external_body]
pub struct ExPathBuf(std::path::PathBuf);

/// `clone` of a `std::path::PathBuf` gives a duplicate: the same path.
pub assume_specification[ <std::path::PathBuf as std::clone::Clone>::clone ](
    path: &std::path::PathBuf,
) -> (r: std::path::PathBuf)
    ensures
        r == *path,
;

/// Where a durable store is kept.
#[derive(Debug)]
pub struct FileCache {
    /// The path of the database file.
    pub path: std::path::PathBuf,
}

impl FileCache {
    /// A durable store at `path`.
    pub fn new<P: Into<std::path::PathBuf>>(path: P) -> (r: Self)
        ensures
            call_ensures(P::into, (path,), r.path),
    {
        FileCache { path: path.into() }
    }
}

impl Clone for FileCache {
    fn clone(&self) -> (r: Self)
        ensures
            r == *self,
    {
        FileCache { path: self.path.clone() }
    }
}

/// The cache-first facade over a resolver and a store.
pub struct SimbadResolver<R> {
    resolver: R,
    cache: CacheTables,
    config: ResolverConfig,
}

impl<R> SimbadResolver<R> {
    /// The resolver.
    pub closed spec fn resolver_spec(&self) -> R {
        self.resolver
    }

    /// The store.
    pub closed spec fn cache_spec(&self) -> CacheTables {
        self.cache
    }

    /// The configuration.
    pub closed spec fn config_spec(&self) -> ResolverConfig {
        self.config
    }

    /// Whether the store is well formed.
    pub open spec fn wf(&self) -> bool {
        self.cache_spec().wf()
    }

    /// A facade of a resolver, a store and a configuration.
    pub fn new(resolver: R, cache: CacheTables, config: ResolverConfig) -> (r: Self)
        ensures
            r.resolver_spec() == resolver,
            r.cache_spec() == cache,
            r.config_spec() == config,
    {
        SimbadResolver { resolver, cache, config }
    }

    /// The store.
    pub fn cache(&self) -> (r: &CacheTables)
        ensures
            *r == self.cache_spec(),
    {
        &self.cache
    }

    /// The store, to be written to.
    pub fn cache_mut(&mut self) -> (r: &mut CacheTables)
        ensures
            *r == old(self).cache_spec(),
            final(self).cache_spec() == *final(r),
            final(self).resolver_spec() == old(self).resolver_spec(),
            final(self).config_spec() == old(self).config_spec(),
    {
        &mut self.cache
    }

    /// The resolver.
    pub fn resolver(&self) -> (r: &R)
        ensures
            *r == self.resolver_spec(),
    {
        &self.resolver
    }

    /// Search the stored aliases, without asking the resolver: exact matches,
    /// prefixes and parts, and, where fuzzy search is on and there is room,
    /// similar names. `scores` holds, for every target of the store in the order
    /// of its list and every alias of that target, the token-set similarity of
    /// the alias and the query.
    pub fn search(&self, query: &str, limit: usize, scores: &Vec<Vec<Single>>) -> (r: Result<
        Vec<SearchHit>,
        CacheError,
    >)
        requires
            self.wf(),
        ensures
            match r {
                Ok(hits) => searched(
                    self.cache_spec()@,
                    self.config_spec(),
                    query@,
                    limit as int,
                    scores@,
                ) == Ok::<_, Seq<char>>(views(hits@)),
                Err(e) => e matches CacheError::InvalidUuid(key, _) && searched(
                    self.cache_spec()@,
                    self.config_spec(),
                    query@,
                    limit as int,
                    scores@,
                ) == Err::<Seq<HitView>, _>(key@),
            },
    {
        let hits = match self.cache.search(query, limit) {
            Ok(hits) => hits,
            Err(e) => {
                return Err(e);
            },
        };
        assert(views(hits@).len() == hits@.len());
        match fuzzy_fill(&self.config, query, hits.len(), limit) {
            None => Ok(hits),
            Some(min) => {
                let targets = match self.cache.list() {
                    Ok(targets) => targets,
                    Err(e) => {
                        return Err(e);
                    },
                };
                Ok(fill_with_fuzzy(hits, targets, scores, min, limit))
            },
        }
    }

    /// Make a stored target the user's authoritative choice, with `alias` among
    /// its names: its own row is rewritten, and no other. `None` where there is no
    /// target with that id.
    pub fn apply_override(&mut self, target_id: u128, alias: &str) -> (r: Result<
        Option<CachedTarget>,
        CacheError,
    >)
        requires
            old(self).wf(),
        ensures
            final(self).wf(),
            final(self).cache_spec().logs_since(&old(self).cache_spec()),
            final(self).resolver_spec() == old(self).resolver_spec(),
            final(self).config_spec() == old(self).config_spec(),
            ({
                let state = old(self).cache_spec()@;
                let after = final(self).cache_spec()@;
                match state.by_id(target_id) {
                    None => r is Ok && r->Ok_0 is None && after == state,
                    Some(target) => {
                        &&& exists|u: UpsertView|
                            u.identity == overridden(target, alias@) && u.drawn() && after
                                == #[trigger] state.stored(hyphenated(target_id), u)
                        &&& r matches Ok(Some(t)) && after.by_id(target_id) == Some(t@) && t@.id
                            == target_id && t@.identity() == (IdentityView {
                            source: TargetSource::UserOverride,
                            aliases: t@.aliases,
                            ..target.identity()
                        })
                        &&& forall|k: Seq<char>|
                            k != hyphenated(target_id) ==> #[trigger] lookup::<TargetRow>(
                                after.targets,
                                k,
                            ) == lookup::<TargetRow>(state.targets, k)
                    },
                }
            }),
    {
        proof {
            lemma_logs_self(self.cache);
        }
        let ghost state = self.cache@;
        match self.cache.get_by_id(target_id) {
            None => Ok(None),
            Some(target) => {
                let identity = override_identity(&target, alias);
                self.cache.overwrite(target_id, &identity);
                proof {
                    let key = hyphenated(target_id);
                    let u = choose|u: UpsertView|
                        u.identity == identity@ && u.drawn() && self.cache@
                            == #[trigger] state.stored(key, u);
                    let row = TargetRowView::of(key, u.identity, u.resolved_at);
                    assert forall|k: Seq<char>| #[trigger]
                        lookup::<TargetRow>(self.cache@.targets, k) == if k == key {
                            Some(row)
                        } else {
                            lookup::<TargetRow>(state.targets, k)
                        } by {
                        lemma_put_lookup::<TargetRow>(state.targets, row, k);
                    }
                }
                Ok(self.cache.get_by_id(target_id))
            },
        }
    }
}

/// The score that fuzzy hits need where a search is to be filled up with them: it
/// is where fuzzy search is on, the query is not blank, and the hits that were
/// found leave room.
pub open spec fn fill_score(
    config: ResolverConfig,
    query: Seq<char>,
    found: int,
    limit: int,
) -> Option<Single> {
    if normalized(query).len() == 0 || found >= limit {
        None
    } else {
        config.fuzzy_min_score
    }
}

/// The score that fuzzy hits need where a search that found `found` hits is to be
/// filled up with them.
pub fn fuzzy_fill(config: &ResolverConfig, query: &str, found: usize, limit: usize) -> (r: Option<
    Single,
>)
    ensures
        r == fill_score(*config, query@, found as int, limit as int),
{
    if found >= limit || normalize(query).as_str().is_empty() {
        None
    } else {
        config.fuzzy_min_score
    }
}

/// What a search of the facade finds.
pub open spec fn searched(
    state: CacheView,
    config: ResolverConfig,
    query: Seq<char>,
    limit: int,
    scores: Seq<Vec<Single>>,
) -> Result<Seq<HitView>, Seq<char>> {
    match state.found(query, limit) {
        Err(key) => Err(key),
        Ok(hits) => match fill_score(config, query, hits.len() as int, limit) {
            None => Ok(hits),
            Some(min) => match state.listed() {
                Err(key) => Err(key),
                Ok(targets) => Ok(filled(hits, targets, scores, min, limit)),
            },
        },
    }
}

impl<R: Resolver> SimbadResolver<R> {
    /// Resolve a query: from the store where an alias matches; else, when
    /// online, by asking the resolver once and storing what it answers. The
    /// contract is that of [`resolve_core`].
    pub fn resolve(&mut self, query: &str) -> (r: Result<Resolution, CacheError>)
        requires
            old(self).wf(),
        ensures
            final(self).wf(),
            final(self).cache_spec().logs_since(&old(self).cache_spec()),
            final(self).config_spec() == old(self).config_spec(),
            resolves(
                old(self).resolver_spec(),
                old(self).cache_spec()@,
                old(self).config_spec(),
                query@,
                r,
                final(self).resolver_spec(),
                final(self).cache_spec()@,
            ),
    {
        resolve_core(&mut self.resolver, &mut self.cache, &self.config, query)
    }
}

} // verus!
