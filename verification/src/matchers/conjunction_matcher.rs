//! A matcher that matches when two matchers both match.

use vstd::prelude::*;
use crate::description::{is_text, shown, Description};
use crate::matcher::{join3, Matcher, MatcherResult};

verus! {

/// Matches a value when both `m1` and `m2` match it.
pub struct ConjunctionMatcher<M1, M2> {
    pub m1: M1,
    pub m2: M2,
}

impl<M1, M2> ConjunctionMatcher<M1, M2> {
    /// Matches a value when both `m1` and `m2` match it.
    pub fn new(m1: M1, m2: M2) -> (m: ConjunctionMatcher<M1, M2>)
        ensures
            m.m1 == m1,
            m.m2 == m2,
    {
        ConjunctionMatcher { m1, m2 }
    }
}

/// Matchers that can be combined with `and`.
pub trait AndMatcherExt: Matcher + Sized {
    /// Constructs a matcher that matches both `self` and `right`.
    fn and<Right: Matcher<ActualT = Self::ActualT>>(self, right: Right) -> (m: ConjunctionMatcher<Self, Right>)
        ensures
            m.m1 == self,
            m.m2 == right,
    {
        ConjunctionMatcher::new(self, right)
    }
}

impl<M: Matcher> AndMatcherExt for M {}

/// The explanation text of a conjunction whose parts explained themselves
/// with `e1` and `e2`, when both parts gave the same result.
pub open spec fn both_text(e1: Seq<char>, e2: Seq<char>) -> Seq<char> {
    e1 + " and\n"@ + e2
}

impl<T: ?Sized, M1: Matcher<ActualT = T>, M2: Matcher<ActualT = T>> Matcher for ConjunctionMatcher<M1, M2> {
    type ActualT = T;

    open spec fn accepts(&self, actual: &T) -> bool {
        self.m1.accepts(actual) && self.m2.accepts(actual)
    }

    open spec fn describes(&self, r: MatcherResult, d: Description) -> bool {
        exists|d1: Description, d2: Description|
            #[trigger] self.m1.describes(r, d1) && #[trigger] self.m2.describes(r, d2) && is_text(
                d,
                shown(d1) + ", and "@ + shown(d2),
            )
    }

    open spec fn explains(&self, actual: &T, d: Description) -> bool {
        let a1 = self.m1.accepts(actual);
        let a2 = self.m2.accepts(actual);
        if a1 == a2 {
            exists|e1: Description, e2: Description|
                #[trigger] self.m1.explains(actual, e1) && #[trigger] self.m2.explains(actual, e2)
                    && is_text(d, both_text(shown(e1), shown(e2)))
        } else if !a1 {
            self.m1.explains(actual, d)
        } else {
            self.m2.explains(actual, d)
        }
    }

    fn matches(&self, actual: &T) -> MatcherResult {
        let r1 = self.m1.matches(actual);
        let r2 = self.m2.matches(actual);
        if r1.is_match() && r2.is_match() {
            MatcherResult::Match
        } else {
            MatcherResult::NoMatch
        }
    }

    fn describe(&self, matcher_result: MatcherResult) -> Description {
        let d1 = self.m1.describe(matcher_result);
        let d2 = self.m2.describe(matcher_result);
        let t1 = d1.to_chars();
        let t2 = d2.to_chars();
        let v = join3(t1.as_slice(), ", and ", t2.as_slice());
        let d = Description::from_chars(v.as_slice());
        assert(self.m1.describes(matcher_result, d1) && self.m2.describes(matcher_result, d2));
        d
    }

    fn explain_match(&self, actual: &T) -> Description {
        let r1 = self.m1.matches(actual);
        let r2 = self.m2.matches(actual);
        if r1.is_match() == r2.is_match() {
            let e1 = self.m1.explain_match(actual);
            let e2 = self.m2.explain_match(actual);
            let t1 = e1.to_chars();
            let t2 = e2.to_chars();
            let v = join3(t1.as_slice(), " and\n", t2.as_slice());
            let d = Description::from_chars(v.as_slice());
            assert(self.m1.explains(actual, e1) && self.m2.explains(actual, e2));
            d
        } else if r1.is_no_match() {
            self.m1.explain_match(actual)
        } else {
            self.m2.explain_match(actual)
        }
    }
}

} // verus!
