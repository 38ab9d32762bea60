//! A matcher that inverts another.

use vstd::prelude::*;
use crate::description::Description;
use crate::matcher::{Matcher, MatcherResult};
use crate::matchers::conjunction_matcher::ConjunctionMatcher;
use crate::matchers::disjunction_matcher::DisjunctionMatcher;

verus! {

/// Matches the values that `inner` does not match.
pub fn not<M: Matcher>(inner: M) -> (m: NotMatcher<M>)
    ensures
        m.inner == inner,
{
    NotMatcher { inner }
}

/// Matches the values that `inner` does not match.
pub struct NotMatcher<M> {
    pub inner: M,
}

/// The other result.
pub open spec fn opposite(r: MatcherResult) -> MatcherResult {
    match r {
        MatcherResult::Match => MatcherResult::NoMatch,
        MatcherResult::NoMatch => MatcherResult::Match,
    }
}

impl<M: Matcher> Matcher for NotMatcher<M> {
    type ActualT = M::ActualT;

    open spec fn accepts(&self, actual: &M::ActualT) -> bool {
        !self.inner.accepts(actual)
    }

    open spec fn describes(&self, r: MatcherResult, d: Description) -> bool {
        self.inner.describes(opposite(r), d)
    }

    open spec fn explains(&self, actual: &M::ActualT, d: Description) -> bool {
        self.inner.explains(actual, d)
    }

    fn matches(&self, actual: &M::ActualT) -> MatcherResult {
        match self.inner.matches(actual) {
            MatcherResult::Match => MatcherResult::NoMatch,
            MatcherResult::NoMatch => MatcherResult::Match,
        }
    }

    fn describe(&self, matcher_result: MatcherResult) -> Description {
        match matcher_result {
            MatcherResult::Match => self.inner.describe(MatcherResult::NoMatch),
            MatcherResult::NoMatch => self.inner.describe(MatcherResult::Match),
        }
    }

    fn explain_match(&self, actual: &M::ActualT) -> Description {
        self.inner.explain_match(actual)
    }
}

/// The negation of `m`.
pub open spec fn negation<M>(m: M) -> NotMatcher<M> {
    NotMatcher { inner: m }
}

/// The conjunction of `m1` and `m2`.
pub open spec fn conjunction<M1, M2>(m1: M1, m2: M2) -> ConjunctionMatcher<M1, M2> {
    ConjunctionMatcher { m1, m2 }
}

/// The disjunction of `m1` and `m2`.
pub open spec fn disjunction<M1, M2>(m1: M1, m2: M2) -> DisjunctionMatcher<M1, M2> {
    DisjunctionMatcher { m1, m2 }
}

/// Negating twice gives back the inner matcher: `not(not(m))` matches what
/// `m` matches, and describes itself as `m` does.
pub proof fn law_double_negation<M: Matcher>(m: M, actual: &M::ActualT, r: MatcherResult, d: Description)
    ensures
        negation(negation(m)).accepts(actual) == m.accepts(actual),
        negation(negation(m)).describes(r, d) == m.describes(r, d),
{
    assert(opposite(opposite(r)) == r);
}

/// The description of `not(m)` for a result is that of `m` for the other
/// result.
pub proof fn law_negation_swaps_descriptions<M: Matcher>(m: M, r: MatcherResult, d: Description)
    ensures
        negation(m).describes(r, d) == m.describes(opposite(r), d),
{
}

/// The negation of a conjunction matches what the disjunction of the
/// negations matches, and the negation of a disjunction what the
/// conjunction of the negations matches.
pub proof fn law_de_morgan<T: ?Sized, M1: Matcher<ActualT = T>, M2: Matcher<ActualT = T>>(
    m1: M1,
    m2: M2,
    actual: &T,
)
    ensures
        negation(conjunction(m1, m2)).accepts(actual) == disjunction(negation(m1), negation(m2)).accepts(actual),
        negation(disjunction(m1, m2)).accepts(actual) == conjunction(negation(m1), negation(m2)).accepts(actual),
{
}

} // verus!
