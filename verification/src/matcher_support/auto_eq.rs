//! Choosing between a matcher and an expected value: a matcher given where
//! an expected value may stand is used as it is, any other value is matched
//! for equality.
//!
//! The choice is made by method resolution: `Wrapper(&x).kind()` finds the
//! inherent method when `x` is a matcher, and the method of [`ExpectedKind`]
//! otherwise.

use vstd::prelude::*;
use crate::matcher::Matcher;
use crate::matchers::eq_matcher::{eq, EqMatcher};

verus! {

/// A reference to the value whose kind is chosen.
pub struct Wrapper<T>(pub T);

impl<'a, T: Matcher> Wrapper<&'a T> {
    /// The value is a matcher.
    pub fn kind(&self) -> (t: MatcherTag) {
        MatcherTag
    }
}

/// Any value that is not a matcher is an expected value.
pub trait ExpectedKind {
    /// The value is an expected value.
    fn kind(&self) -> (t: ExpectedTag) {
        ExpectedTag
    }
}

impl<T> ExpectedKind for Wrapper<T> {}

/// Marks a matcher.
pub struct MatcherTag;

impl MatcherTag {
    /// The matcher itself.
    pub fn matcher<M>(self, matcher: M) -> (m: M)
        ensures
            m == matcher,
    {
        matcher
    }
}

/// Marks an expected value.
pub struct ExpectedTag;

impl ExpectedTag {
    /// The matcher of values equal to `expected`.
    pub fn matcher<A, T>(self, expected: T) -> (m: EqMatcher<A, T>)
        ensures
            m.expected == expected,
    {
        eq(expected)
    }
}

} // verus!
