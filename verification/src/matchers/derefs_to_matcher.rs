//! A matcher for pointers whose target an inner matcher matches.

use vstd::prelude::*;
use core::marker::PhantomData;
use crate::description::Description;
use crate::matcher::{Matcher, MatcherResult, Pointer};

verus! {

/// Matches a pointer whose target `inner` matches.
pub fn derefs_to<P, Inner>(inner: Inner) -> (m: DerefsTo<P, Inner>)
    ensures
        m.inner == inner,
{
    DerefsTo { inner, phantom: PhantomData }
}

/// Matches a pointer whose target `inner` matches.
pub struct DerefsTo<P, InnerT> {
    pub inner: InnerT,
    pub phantom: PhantomData<P>,
}

impl<P: Pointer, Inner: Matcher<ActualT = P::Target>> Matcher for DerefsTo<P, Inner> {
    type ActualT = P;

    open spec fn accepts(&self, actual: &P) -> bool {
        self.inner.accepts(actual.points_to())
    }

    open spec fn describes(&self, r: MatcherResult, d: Description) -> bool {
        self.inner.describes(r, d)
    }

    open spec fn explains(&self, actual: &P, d: Description) -> bool {
        self.inner.explains(actual.points_to(), d)
    }

    fn matches(&self, actual: &P) -> MatcherResult {
        self.inner.matches(actual.target())
    }

    fn describe(&self, matcher_result: MatcherResult) -> Description {
        self.inner.describe(matcher_result)
    }

    fn explain_match(&self, actual: &P) -> Description {
        self.inner.explain_match(actual.target())
    }
}

} // verus!
