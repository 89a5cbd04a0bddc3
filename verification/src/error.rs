//! Errors of resolvers.

use vstd::prelude::*;

verus! {

/// The view of a [`ResolveError`].
pub enum ErrorView {
    Network(Seq<char>),
    Timeout(u64),
    NotFound(Seq<char>),
    Ambiguous { query: Seq<char>, count: usize },
    Disabled,
    Parse(Seq<char>),
}

impl ErrorView {
    /// Whether the failure may pass: the service was unreachable, too slow or
    /// switched off.
    pub open spec fn transient(self) -> bool {
        self is Network || self is Timeout || self is Disabled
    }
}

/// Why a name was not resolved.
#[derive(Debug, Eq, PartialEq)]
pub enum ResolveError {
    /// The service could not be reached, or answered with a failure.
    Network(String),
    /// The service did not answer within this many seconds.
    Timeout(u64),
    /// There is no object of this name.
    NotFound(String),
    /// The name stands for several physical objects.
    Ambiguous {
        /// The name.
        query: String,
        /// How many objects there are.
        count: usize,
    },
    /// Online resolution is switched off.
    Disabled,
    /// The answer could not be understood.
    Parse(String),
}

impl View for ResolveError {
    type V = ErrorView;

    open spec fn view(&self) -> ErrorView {
        match self {
            ResolveError::Network(m) => ErrorView::Network(m@),
            ResolveError::Timeout(s) => ErrorView::Timeout(*s),
            ResolveError::NotFound(q) => ErrorView::NotFound(q@),
            ResolveError::Ambiguous { query, count } => ErrorView::Ambiguous {
                query: query@,
                count: *count,
            },
            ResolveError::Disabled => ErrorView::Disabled,
            ResolveError::Parse(m) => ErrorView::Parse(m@),
        }
    }
}

impl Clone for ResolveError {
    fn clone(&self) -> (r: Self)
        ensures
            r@ == self@,
    {
        match self {
            ResolveError::Network(m) => ResolveError::Network(m.clone()),
            ResolveError::Timeout(s) => ResolveError::Timeout(*s),
            ResolveError::NotFound(q) => ResolveError::NotFound(q.clone()),
            ResolveError::Ambiguous { query, count } => ResolveError::Ambiguous {
                query: query.clone(),
                count: *count,
            },
            ResolveError::Disabled => ResolveError::Disabled,
            ResolveError::Parse(m) => ResolveError::Parse(m.clone()),
        }
    }
}

impl ResolveError {
    /// Whether the failure may pass, so that trying again later makes sense.
    pub fn is_transient(&self) -> (r: bool)
        ensures
            r == self@.transient(),
    {
        match self {
            ResolveError::Network(_) => true,
            ResolveError::Timeout(_) => true,
            ResolveError::Disabled => true,
            ResolveError::NotFound(_) => false,
            ResolveError::Ambiguous { .. } => false,
            ResolveError::Parse(_) => false,
        }
    }
}

} // verus!
