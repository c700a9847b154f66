//! A bearer-token requirement around the bundle endpoint: requests without
//! the required token are refused.

use vstd::prelude::*;

verus! {

/// The access-control rule, carrying the required token, if any.
pub struct RequireBearerLayer {
    /// The required token value; with none, every request is accepted.
    required_token: Option<String>,
}

/// The middleware around an inner handler: requests must satisfy the
/// bearer-token rule before they reach the handler.
pub struct RequireBearerMiddleware<S> {
    /// The wrapped handler.
    inner: S,
    /// The required token value.
    required_token: Option<String>,
}

impl RequireBearerLayer {
    /// The required token, seen as its characters.
    pub closed spec fn spec_token(&self) -> Option<Seq<char>> {
        self.required_token.deep_view()
    }

    /// Creates the rule with a given required token.
    pub fn new(required_token: Option<String>) -> (r: Self)
        ensures
            r.spec_token() == required_token.deep_view(),
    {
        RequireBearerLayer { required_token }
    }

    /// Wraps an inner handler with this rule.
    pub fn layer<S>(&self, inner: S) -> (r: RequireBearerMiddleware<S>)
        ensures
            r.spec_token() == self.spec_token(),
            r.spec_inner() == inner,
    {
        RequireBearerMiddleware { inner, required_token: self.required_token.clone() }
    }
}

impl<S> RequireBearerMiddleware<S> {
    /// The required token, seen as its characters.
    pub closed spec fn spec_token(&self) -> Option<Seq<char>> {
        self.required_token.deep_view()
    }

    /// The wrapped handler.
    pub closed spec fn spec_inner(&self) -> S {
        self.inner
    }

    /// The wrapped handler.
    pub fn inner(&self) -> (r: &S)
        ensures
            *r == self.spec_inner(),
    {
        &self.inner
    }

    /// Decides a request: accepted exactly when no token is required, or
    /// the request carries the required one. Refused requests are answered
    /// with an authorization failure, never passed inward.
    pub fn token_accepted(&self, bearer_token: Option<&String>) -> (r: bool)
        ensures
            r == match (self.spec_token(), bearer_token) {
                (Option::Some(required), Option::Some(provided)) => required == provided@,
                (Option::Some(_), Option::None) => false,
                (Option::None, _) => true,
            },
    {
        match (&self.required_token, bearer_token) {
            (Some(required), Some(provided)) => {
                let eq = required.eq(provided);
                proof {
                    assert(self.required_token.deep_view() == Option::Some(required@));
                }
                eq
            },
            (Some(_), None) => false,
            (None, _) => true,
        }
    }
}

} // verus!
