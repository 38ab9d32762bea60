//! A matcher for values less than or equal to an expected value.

use vstd::prelude::*;
use core::marker::PhantomData;
use crate::description::{is_text, Description};
use crate::matcher::{
    result_of, text_with, which, which_text, Below, EqualTo, Matcher, MatcherResult, Printable,
};

verus! {

/// Matches a value less than or equal to `expected`.
pub fn le<A: ?Sized, T>(expected: T) -> (m: LeMatcher<A, T>)
    ensures
        m.expected == expected,
{
    LeMatcher { expected, phantom: PhantomData }
}

/// Matches a value less than or equal to `expected`.
pub struct LeMatcher<A: ?Sized, T> {
    pub expected: T,
    pub phantom: PhantomData<A>,
}

/// The one-line description of [`le`] for a result.
pub open spec fn le_text(printed: Seq<char>, r: MatcherResult) -> Seq<char> {
    match r {
        MatcherResult::Match => "is less than or equal to "@ + printed,
        MatcherResult::NoMatch => "is greater than "@ + printed,
    }
}

impl<A: ?Sized, T: Printable> LeMatcher<A, T> {
    fn text_chars(&self, r: MatcherResult) -> (v: Vec<char>)
        ensures
            v@ == le_text(self.expected.printed(), r),
    {
        match r {
            MatcherResult::Match => text_with("is less than or equal to ", &self.expected),
            MatcherResult::NoMatch => text_with("is greater than ", &self.expected),
        }
    }
}

impl<A: Below<T> + EqualTo<T> + ?Sized, T: Printable> Matcher for LeMatcher<A, T> {
    type ActualT = A;

    open spec fn accepts(&self, actual: &A) -> bool {
        actual.below(&self.expected) || actual.equal_to(&self.expected)
    }

    open spec fn describes(&self, r: MatcherResult, d: Description) -> bool {
        is_text(d, le_text(self.expected.printed(), r))
    }

    open spec fn explains(&self, actual: &A, d: Description) -> bool {
        is_text(d, which_text(le_text(self.expected.printed(), result_of(self.accepts(actual)))))
    }

    fn matches(&self, actual: &A) -> MatcherResult {
        MatcherResult::from_bool(actual.is_below(&self.expected) || actual.is_equal_to(&self.expected))
    }

    fn describe(&self, matcher_result: MatcherResult) -> Description {
        let v = self.text_chars(matcher_result);
        Description::from_chars(v.as_slice())
    }

    fn explain_match(&self, actual: &A) -> Description {
        let r = self.matches(actual);
        let v = self.text_chars(r);
        which(v.as_slice())
    }
}

} // verus!
