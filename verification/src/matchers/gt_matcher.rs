//! A matcher for values greater than an expected value.

use vstd::prelude::*;
use core::marker::PhantomData;
use crate::description::{is_text, Description};
use crate::matcher::{
    result_of, text_with, which, which_text, Below, Matcher, MatcherResult, Printable,
};

verus! {

/// Matches a value greater than `expected`.
pub fn gt<A: ?Sized, T>(expected: T) -> (m: GtMatcher<A, T>)
    ensures
        m.expected == expected,
{
    GtMatcher { expected, phantom: PhantomData }
}

/// Matches a value greater than `expected`.
pub struct GtMatcher<A: ?Sized, T> {
    pub expected: T,
    pub phantom: PhantomData<A>,
}

/// The one-line description of [`gt`] for a result.
pub open spec fn gt_text(printed: Seq<char>, r: MatcherResult) -> Seq<char> {
    match r {
        MatcherResult::Match => "is greater than "@ + printed,
        MatcherResult::NoMatch => "is less than or equal to "@ + printed,
    }
}

impl<A: ?Sized, T: Printable> GtMatcher<A, T> {
    fn text_chars(&self, r: MatcherResult) -> (v: Vec<char>)
        ensures
            v@ == gt_text(self.expected.printed(), r),
    {
        match r {
            MatcherResult::Match => text_with("is greater than ", &self.expected),
            MatcherResult::NoMatch => text_with("is less than or equal to ", &self.expected),
        }
    }
}

impl<A: ?Sized, T: Below<A> + Printable> Matcher for GtMatcher<A, T> {
    type ActualT = A;

    open spec fn accepts(&self, actual: &A) -> bool {
        self.expected.below(actual)
    }

    open spec fn describes(&self, r: MatcherResult, d: Description) -> bool {
        is_text(d, gt_text(self.expected.printed(), r))
    }

    open spec fn explains(&self, actual: &A, d: Description) -> bool {
        is_text(d, which_text(gt_text(self.expected.printed(), result_of(self.accepts(actual)))))
    }

    fn matches(&self, actual: &A) -> MatcherResult {
        MatcherResult::from_bool(self.expected.is_below(actual))
    }

    fn describe(&self, matcher_result: MatcherResult) -> Description {
        let v = self.text_chars(matcher_result);
        Description::from_chars(v.as_slice())
    }

    fn explain_match(&self, actual: &A) -> Description {
        let r = self.matches(actual);
        let v = self.text_chars(r);
        which(v.as_slice())
    }
}

} // verus!
