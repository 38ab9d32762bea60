//! A matcher for values greater than or equal to an expected value.

use vstd::prelude::*;
use core::marker::PhantomData;
use crate::description::{is_text, Description};
use crate::matcher::{
    result_of, text_with, which, which_text, Below, EqualTo, Matcher, MatcherResult, Printable,
};

verus! {

/// Matches a value greater than or equal to `expected`.
pub fn ge<A: ?Sized, T>(expected: T) -> (m: GeMatcher<A, T>)
    ensures
        m.expected == expected,
{
    GeMatcher { expected, phantom: PhantomData }
}

/// Matches a value greater than or equal to `expected`.
pub struct GeMatcher<A: ?Sized, T> {
    pub expected: T,
    pub phantom: PhantomData<A>,
}

/// The one-line description of [`ge`] for a result.
pub open spec fn ge_text(printed: Seq<char>, r: MatcherResult) -> Seq<char> {
    match r {
        MatcherResult::Match => "is greater than or equal to "@ + printed,
        MatcherResult::NoMatch => "is less than "@ + printed,
    }
}

impl<A: ?Sized, T: Printable> GeMatcher<A, T> {
    fn text_chars(&self, r: MatcherResult) -> (v: Vec<char>)
        ensures
            v@ == ge_text(self.expected.printed(), r),
    {
        match r {
            MatcherResult::Match => text_with("is greater than or equal to ", &self.expected),
            MatcherResult::NoMatch => text_with("is less than ", &self.expected),
        }
    }
}

impl<A: ?Sized, T: Below<A> + EqualTo<A> + Printable> Matcher for GeMatcher<A, T> {
    type ActualT = A;

    open spec fn accepts(&self, actual: &A) -> bool {
        self.expected.below(actual) || self.expected.equal_to(actual)
    }

    open spec fn describes(&self, r: MatcherResult, d: Description) -> bool {
        is_text(d, ge_text(self.expected.printed(), r))
    }

    open spec fn explains(&self, actual: &A, d: Description) -> bool {
        is_text(d, which_text(ge_text(self.expected.printed(), result_of(self.accepts(actual)))))
    }

    fn matches(&self, actual: &A) -> MatcherResult {
        MatcherResult::from_bool(self.expected.is_below(actual) || self.expected.is_equal_to(actual))
    }

    fn describe(&self, matcher_result: MatcherResult) -> Description {
        let v = self.text_chars(matcher_result);
        Description::from_chars(v.as_slice())
    }

    fn explain_match(&self, actual: &A) -> Description {
        let r = self.matches(actual);
        let v = self.text_chars(r);
        which(v.as_slice())
    }
}

} // verus!
