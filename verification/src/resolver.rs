//! The seam to name services.

use vstd::prelude::*;

use crate::error::{ErrorView, ResolveError};
use crate::float::Double;
use crate::normalize::{normalize, normalized};
use crate::order::views;
use crate::text::same_text;
use crate::types::{IdentityView, PositionMatch, ResolvedIdentity};

verus! {

/// Resolves a designation or a common name to one canonical identity.
pub trait Resolver: Sized {
    /// Whether a resolver may give `answer` to `query`, and be `after` then. An
    /// implementation says here what it promises of its answers.
    spec fn answers(
        self,
        query: Seq<char>,
        answer: Result<IdentityView, ErrorView>,
        after: Self,
    ) -> bool;

    /// Resolve a complete designation or common name.
    fn resolve(&mut self, query: &str) -> (r: Result<ResolvedIdentity, ResolveError>)
        ensures
            old(self).answers(query@, answer_view(r), *final(self)),
    ;

    /// Resolve the value of a FITS `OBJECT` header. Unless a resolver has rules
    /// of its own for those, this is the same as resolving a name.
    fn resolve_object(&mut self, object_raw: &str) -> (r: Result<ResolvedIdentity, ResolveError>)
        default_ensures
            old(self).answers(object_raw@, answer_view(r), *final(self)),
    {
        self.resolve(object_raw)
    }
}

/// Finds the objects near a position.
pub trait PositionResolver {
    /// The objects within `radius_deg` of a position, nearest first.
    fn resolve_position(
        &mut self,
        ra_deg: Double,
        dec_deg: Double,
        radius_deg: Double,
        limit: usize,
    ) -> Result<Vec<PositionMatch>, ResolveError>;
}

/// A resolver that never reaches the network.
#[derive(Clone, Copy, Debug)]
pub struct OfflineResolver;

impl Default for OfflineResolver {
    fn default() -> (r: Self)
        ensures
            r == OfflineResolver,
    {
        OfflineResolver
    }
}

impl Resolver for OfflineResolver {
    /// Online resolution is switched off, whatever the query.
    open spec fn answers(
        self,
        query: Seq<char>,
        answer: Result<IdentityView, ErrorView>,
        after: Self,
    ) -> bool {
        answer == Err::<IdentityView, _>(ErrorView::Disabled)
    }

    fn resolve(&mut self, query: &str) -> (r: Result<ResolvedIdentity, ResolveError>) {
        Err(ResolveError::Disabled)
    }
}

// ── FakeResolver ─────────────────────────────────────────────────────────────

/// A canned answer.
#[derive(Debug)]
struct Canned<T> {
    key: String,
    answer: T,
}

impl<T: View> View for Canned<T> {
    type V = (Seq<char>, T::V);

    closed spec fn view(&self) -> (Seq<char>, T::V) {
        (self.key@, self.answer@)
    }
}

/// The answer that was registered last under `key`.
pub open spec fn latest<V>(s: Seq<(Seq<char>, V)>, key: Seq<char>) -> Option<V>
    decreases s.len(),
{
    if s.len() == 0 {
        None
    } else if s.last().0 == key {
        Some(s.last().1)
    } else {
        latest(s.drop_last(), key)
    }
}

/// The view of a [`FakeResolver`].
#[verifier::ext_equal]
pub struct FakeView {
    pub responses: Seq<(Seq<char>, IdentityView)>,
    pub errors: Seq<(Seq<char>, ErrorView)>,
    pub default_error: Option<ErrorView>,
    pub call_count: usize,
}

impl FakeView {
    /// What is answered to `query`: the error registered for its normalized
    /// form, else the identity, else the default error, else that there is no
    /// such object.
    pub open spec fn answer(self, query: Seq<char>) -> Result<IdentityView, ErrorView> {
        match latest(self.errors, normalized(query)) {
            Some(e) => Err(e),
            None => match latest(self.responses, normalized(query)) {
                Some(identity) => Ok(identity),
                None => match self.default_error {
                    Some(e) => Err(e),
                    None => Err(ErrorView::NotFound(query)),
                },
            },
        }
    }
}

impl FakeView {
    /// The resolver after one more call; the count starts again at zero when it
    /// runs over.
    pub open spec fn asked(self) -> Self {
        FakeView {
            call_count: if self.call_count == usize::MAX {
                0
            } else {
                (self.call_count + 1) as usize
            },
            ..self
        }
    }
}

/// The view of what a resolver answers.
pub open spec fn answer_view(r: Result<ResolvedIdentity, ResolveError>) -> Result<
    IdentityView,
    ErrorView,
> {
    match r {
        Ok(identity) => Ok(identity@),
        Err(e) => Err(e@),
    }
}

/// A resolver with canned answers, for tests. Answers are registered under the
/// normalized form of a query.
#[derive(Debug)]
pub struct FakeResolver {
    responses: Vec<Canned<ResolvedIdentity>>,
    errors: Vec<Canned<ResolveError>>,
    default_error: Option<ResolveError>,
    call_count: usize,
}

impl View for FakeResolver {
    type V = FakeView;

    closed spec fn view(&self) -> FakeView {
        FakeView {
            responses: views(self.responses@),
            errors: views(self.errors@),
            default_error: match self.default_error {
                Some(e) => Some(e@),
                None => None,
            },
            call_count: self.call_count,
        }
    }
}

fn find_latest<'a, T: View>(v: &'a Vec<Canned<T>>, key: &str) -> (r: Option<&'a T>)
    ensures
        match r {
            Some(t) => latest(views(v@), key@) == Some(t@),
            None => latest(views(v@), key@) is None,
        },
{
    let ghost s = views(v@);
    let mut n: usize = v.len();
    assert(s.take(n as int) =~= s);
    while n > 0
        invariant
            s == views(v@),
            n <= v@.len(),
            latest(s, key@) == latest(s.take(n as int), key@),
        decreases n,
    {
        let item = &v[n - 1];
        proof {
            assert(s.take(n as int).last() == item@);
            assert(s.take(n as int).drop_last() =~= s.take(n - 1));
        }
        if same_text(item.key.as_str(), key) {
            return Some(&item.answer);
        }
        n -= 1;
    }
    None
}

impl FakeResolver {
    /// A resolver that knows nothing.
    pub fn new() -> (r: Self)
        ensures
            r@ == (FakeView {
                responses: Seq::empty(),
                errors: Seq::empty(),
                default_error: None,
                call_count: 0,
            }),
    {
        let r = FakeResolver {
            responses: Vec::new(),
            errors: Vec::new(),
            default_error: None,
            call_count: 0,
        };
        assert(views(r.responses@) =~= Seq::empty());
        assert(views(r.errors@) =~= Seq::empty());
        r
    }

    /// Register an identity for a query.
    pub fn with_response(self, query: &str, identity: ResolvedIdentity) -> (r: Self)
        ensures
            r@ == (FakeView {
                responses: self@.responses.push((normalized(query@), identity@)),
                ..self@
            }),
    {
        let mut r = self;
        let ghost had = r.responses@;
        r.responses.push(Canned { key: normalize(query), answer: identity });
        assert(views(r.responses@) =~= views(had).push((normalized(query@), identity@)));
        r
    }

    /// Register an error for a query.
    pub fn with_error(self, query: &str, error: ResolveError) -> (r: Self)
        ensures
            r@ == (FakeView {
                errors: self@.errors.push((normalized(query@), error@)),
                ..self@
            }),
    {
        let mut r = self;
        let ghost had = r.errors@;
        r.errors.push(Canned { key: normalize(query), answer: error });
        assert(views(r.errors@) =~= views(had).push((normalized(query@), error@)));
        r
    }

    /// Set the error for every query that nothing is registered for.
    pub fn with_default_error(self, error: ResolveError) -> (r: Self)
        ensures
            r@ == (FakeView { default_error: Some(error@), ..self@ }),
    {
        let mut r = self;
        r.default_error = Some(error);
        r
    }

    /// How often the resolver was asked.
    pub fn call_count(&self) -> (n: usize)
        ensures
            n == self@.call_count,
    {
        self.call_count
    }
}

impl Default for FakeResolver {
    fn default() -> (r: Self)
        ensures
            r@ == (FakeView {
                responses: Seq::empty(),
                errors: Seq::empty(),
                default_error: None,
                call_count: 0,
            }),
    {
        FakeResolver::new()
    }
}

impl Clone for FakeResolver {
    /// A resolver with the same answers, which was never asked.
    fn clone(&self) -> (r: Self)
        ensures
            r@ == (FakeView { call_count: 0, ..self@ }),
    {
        let mut responses: Vec<Canned<ResolvedIdentity>> = Vec::new();
        let mut i: usize = 0;
        assert(views(responses@) =~= views(self.responses@).take(0));
        while i < self.responses.len()
            invariant
                i <= self.responses@.len(),
                views(responses@) == views(self.responses@).take(i as int),
            decreases self.responses@.len() - i,
        {
            let ghost done = responses@;
            let item = &self.responses[i];
            let copy = Canned { key: item.key.clone(), answer: item.answer.clone() };
            responses.push(copy);
            proof {
                assert(views(responses@) =~= views(done).push(copy@));
                assert(views(self.responses@).take(i + 1) =~= views(self.responses@).take(
                    i as int,
                ).push(copy@));
            }
            i += 1;
        }
        let mut errors: Vec<Canned<ResolveError>> = Vec::new();
        let mut j: usize = 0;
        assert(views(errors@) =~= views(self.errors@).take(0));
        while j < self.errors.len()
            invariant
                j <= self.errors@.len(),
                views(errors@) == views(self.errors@).take(j as int),
            decreases self.errors@.len() - j,
        {
            let ghost done = errors@;
            let item = &self.errors[j];
            let copy = Canned { key: item.key.clone(), answer: item.answer.clone() };
            errors.push(copy);
            proof {
                assert(views(errors@) =~= views(done).push(copy@));
                assert(views(self.errors@).take(j + 1) =~= views(self.errors@).take(
                    j as int,
                ).push(copy@));
            }
            j += 1;
        }
        proof {
            assert(views(self.responses@).take(self.responses@.len() as int) =~= views(
                self.responses@,
            ));
            assert(views(self.errors@).take(self.errors@.len() as int) =~= views(self.errors@));
        }
        let default_error = match &self.default_error {
            Some(e) => Some(e.clone()),
            None => None,
        };
        FakeResolver { responses, errors, default_error, call_count: 0 }
    }
}

impl Resolver for FakeResolver {
    /// The answer is the registered one, and the call is counted.
    open spec fn answers(
        self,
        query: Seq<char>,
        answer: Result<IdentityView, ErrorView>,
        after: Self,
    ) -> bool {
        &&& answer == self@.answer(query)
        &&& after@ == self@.asked()
    }

    fn resolve(&mut self, query: &str) -> (r: Result<ResolvedIdentity, ResolveError>) {
        self.call_count = self.call_count.wrapping_add(1);
        let key = normalize(query);
        if let Some(e) = find_latest(&self.errors, key.as_str()) {
            return Err(e.clone());
        }
        if let Some(identity) = find_latest(&self.responses, key.as_str()) {
            return Ok(identity.clone());
        }
        match &self.default_error {
            Some(e) => Err(e.clone()),
            None => Err(ResolveError::NotFound(query.to_owned())),
        }
    }
}

} // verus!
