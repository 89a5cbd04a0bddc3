//! Resolving a query step by step.
//!
//! A [`ResolveFlow`] says what has to be done next to resolve a query: look up a
//! key in the store, ask the resolver, store what it answered, or read back what
//! was stored. Whoever does it hands the outcome back, and gets the next step.
//! The steps are the same whether the store and the resolver answer at once, as in
//! [`resolve_core`](crate::orchestrate::resolve_core), or later.

use vstd::prelude::*;

use crate::cache::{CachedTarget, CachedView};
use crate::error::{ErrorView, ResolveError};
use crate::orchestrate::{answer_failure, answer_offline, bind_alias, bound, plan_of, plan_resolve, reason_of, settle, settled, PlanView, Resolution, ResolutionView, ResolvePlan, UnresolvedReason};
use crate::types::{IdentityView, ResolvedIdentity};

verus! {

/// The view of a [`ResolveFlow`].
pub enum ResolveFlowView {
    LookUp { plan: PlanView, at: int, key: Seq<char>, online: bool },
    Ask { plan: PlanView },
    Store { plan: PlanView, identity: IdentityView },
    Read { plan: PlanView, id: u128 },
}

/// What has to be done next to resolve a query.
#[derive(Debug, PartialEq)]
pub enum ResolveFlow {
    /// Look up a normalized form in the store.
    LookUp {
        /// The plan of the query.
        plan: ResolvePlan,
        /// The place of the key in the plan.
        at: usize,
        /// The normalized form.
        key: String,
        /// Whether the resolver may be asked where nothing is found.
        online: bool,
    },
    /// Ask the resolver for the plan's name.
    Ask {
        /// The plan of the query.
        plan: ResolvePlan,
    },
    /// Store an identity.
    Store {
        /// The plan of the query.
        plan: ResolvePlan,
        /// The identity.
        identity: ResolvedIdentity,
    },
    /// Read the target with an id from the store.
    Read {
        /// The plan of the query.
        plan: ResolvePlan,
        /// The id that the identity was stored under.
        id: u128,
    },
}

impl View for ResolveFlow {
    type V = ResolveFlowView;

    open spec fn view(&self) -> ResolveFlowView {
        match self {
            ResolveFlow::LookUp { plan, at, key, online } => ResolveFlowView::LookUp {
                plan: plan@,
                at: *at as int,
                key: key@,
                online: *online,
            },
            ResolveFlow::Ask { plan } => ResolveFlowView::Ask { plan: plan@ },
            ResolveFlow::Store { plan, identity } => ResolveFlowView::Store {
                plan: plan@,
                identity: identity@,
            },
            ResolveFlow::Read { plan, id } => ResolveFlowView::Read { plan: plan@, id: *id },
        }
    }
}

/// The view of a [`ResolveEvent`].
pub enum ResolveEventView {
    Found(Option<CachedView>),
    Answered(Result<IdentityView, ErrorView>),
    Stored(u128),
}

/// The outcome of what a flow asked for.
#[derive(Debug)]
pub enum ResolveEvent {
    /// What a key or an id led to in the store.
    Found(Option<CachedTarget>),
    /// What the resolver answered.
    Answered(Result<ResolvedIdentity, ResolveError>),
    /// The id that an identity was stored under.
    Stored(u128),
}

impl View for ResolveEvent {
    type V = ResolveEventView;

    open spec fn view(&self) -> ResolveEventView {
        match self {
            ResolveEvent::Found(t) => ResolveEventView::Found(
                match t {
                    Some(t) => Some(t@),
                    None => None,
                },
            ),
            ResolveEvent::Answered(r) => ResolveEventView::Answered(
                match r {
                    Ok(identity) => Ok(identity@),
                    Err(e) => Err(e@),
                },
            ),
            ResolveEvent::Stored(id) => ResolveEventView::Stored(*id),
        }
    }
}

/// The view of a [`ResolveStep`].
pub enum ResolveStepView {
    Do(ResolveFlowView),
    Finish(ResolutionView),
}

/// Where the resolution of a query stands.
#[derive(Debug, PartialEq)]
pub enum ResolveStep {
    /// Something has to be done.
    Do(ResolveFlow),
    /// The query is done.
    Finish(Resolution),
}

impl View for ResolveStep {
    type V = ResolveStepView;

    open spec fn view(&self) -> ResolveStepView {
        match self {
            ResolveStep::Do(flow) => ResolveStepView::Do(flow@),
            ResolveStep::Finish(r) => ResolveStepView::Finish(r@),
        }
    }
}

/// The step at the key number `at` of a plan: it is looked up; behind the last one
/// the resolver is asked, unless it may not be.
pub open spec fn key_step(plan: PlanView, at: int, online: bool) -> ResolveStepView {
    if at < plan.keys.len() {
        ResolveStepView::Do(ResolveFlowView::LookUp { plan, at, key: plan.keys[at], online })
    } else if online {
        ResolveStepView::Do(ResolveFlowView::Ask { plan })
    } else {
        ResolveStepView::Finish(
            ResolutionView::Unresolved { query: plan.query, reason: UnresolvedReason::Offline },
        )
    }
}

/// The first step for a query: one that is answered at once is done, any other is
/// looked up.
pub open spec fn first_resolve_step(query: Seq<char>, online: bool) -> ResolveStepView {
    match plan_of(query) {
        Ok(plan) => key_step(plan, 0, online),
        Err(resolution) => ResolveStepView::Finish(resolution),
    }
}

/// The step that follows an event. A stored target ends the query, and so does a
/// failure of the resolver; what the resolver answers is stored and read back. An
/// event that the flow does not wait for leaves it as it is.
pub open spec fn next_resolve_step(
    flow: ResolveFlowView,
    event: ResolveEventView,
) -> ResolveStepView {
    match (flow, event) {
        (
            ResolveFlowView::LookUp { plan, at, key, online },
            ResolveEventView::Found(found),
        ) => match found {
            Some(t) => ResolveStepView::Finish(ResolutionView::Resolved(t)),
            None => key_step(plan, at + 1, online),
        },
        (ResolveFlowView::Ask { plan }, ResolveEventView::Answered(answer)) => match answer {
            Ok(identity) => ResolveStepView::Do(
                ResolveFlowView::Store { plan, identity: bound(identity, plan.caldwell_alias) },
            ),
            Err(e) => ResolveStepView::Finish(
                ResolutionView::Unresolved { query: plan.query, reason: reason_of(e) },
            ),
        },
        (ResolveFlowView::Store { plan, identity }, ResolveEventView::Stored(id)) => {
            ResolveStepView::Do(ResolveFlowView::Read { plan, id })
        },
        (ResolveFlowView::Read { plan, id }, ResolveEventView::Found(found)) => {
            ResolveStepView::Finish(settled(plan.query, found))
        },
        _ => ResolveStepView::Do(flow),
    }
}

impl ResolveFlow {
    fn at_key(plan: ResolvePlan, at: usize, online: bool) -> (step: ResolveStep)
        ensures
            step@ == key_step(plan@, at as int, online),
    {
        if at < plan.keys.len() {
            let key = plan.keys[at].clone();
            assert(plan@.keys[at as int] == plan.keys@[at as int]@);
            ResolveStep::Do(ResolveFlow::LookUp { plan, at, key, online })
        } else if online {
            ResolveStep::Do(ResolveFlow::Ask { plan })
        } else {
            ResolveStep::Finish(answer_offline(&plan))
        }
    }

    /// Start to resolve a query; the resolver is asked only where `online`.
    pub fn start(query: &str, online: bool) -> (step: ResolveStep)
        ensures
            step@ == first_resolve_step(query@, online),
    {
        match plan_resolve(query) {
            Ok(plan) => ResolveFlow::at_key(plan, 0, online),
            Err(resolution) => ResolveStep::Finish(resolution),
        }
    }

    /// Go on with an event.
    pub fn advance(self, event: ResolveEvent) -> (step: ResolveStep)
        ensures
            step@ == next_resolve_step(self@, event@),
    {
        match (self, event) {
            (ResolveFlow::LookUp { plan, at, key: _, online }, ResolveEvent::Found(found)) => {
                match found {
                    Some(t) => ResolveStep::Finish(Resolution::Resolved(t)),
                    None => {
                        let next: usize = if at < plan.keys.len() {
                            at + 1
                        } else {
                            at
                        };
                        ResolveFlow::at_key(plan, next, online)
                    },
                }
            },
            (ResolveFlow::Ask { plan }, ResolveEvent::Answered(answer)) => match answer {
                Ok(identity) => {
                    let identity = bind_alias(&plan, identity);
                    ResolveStep::Do(ResolveFlow::Store { plan, identity })
                },
                Err(e) => ResolveStep::Finish(answer_failure(&plan, &e)),
            },
            (ResolveFlow::Store { plan, identity: _ }, ResolveEvent::Stored(id)) => {
                ResolveStep::Do(ResolveFlow::Read { plan, id })
            },
            (ResolveFlow::Read { plan, id: _ }, ResolveEvent::Found(found)) => {
                ResolveStep::Finish(settle(&plan, found))
            },
            (flow, _) => ResolveStep::Do(flow),
        }
    }
}

} // verus!
