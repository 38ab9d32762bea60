//! A matcher for empty collections.

use vstd::prelude::*;
use core::marker::PhantomData;
use crate::description::{is_text, Description};
use crate::matcher::{result_of, which, which_text, Matcher, MatcherResult};
use crate::matchers::has_size::HasSize;
use crate::text::chars_of;

verus! {

/// Matches an empty collection.
pub fn is_empty<C>() -> (m: EmptyMatcher<C>) {
    EmptyMatcher { phantom: PhantomData }
}

/// Matches an empty collection (the former name of [`is_empty`]).
pub fn empty<C>() -> (m: EmptyMatcher<C>) {
    EmptyMatcher { phantom: PhantomData }
}

/// Matches an empty collection.
pub struct EmptyMatcher<C> {
    pub phantom: PhantomData<C>,
}

/// The one-line description of [`is_empty`] for a result.
pub open spec fn empty_text(r: MatcherResult) -> Seq<char> {
    match r {
        MatcherResult::Match => "is empty"@,
        MatcherResult::NoMatch => "isn't empty"@,
    }
}

fn empty_chars(r: MatcherResult) -> (v: Vec<char>)
    ensures
        v@ == empty_text(r),
{
    match r {
        MatcherResult::Match => chars_of("is empty"),
        MatcherResult::NoMatch => chars_of("isn't empty"),
    }
}

impl<C: HasSize> Matcher for EmptyMatcher<C> {
    type ActualT = C;

    open spec fn accepts(&self, actual: &C) -> bool {
        actual.size_of() == 0
    }

    open spec fn describes(&self, r: MatcherResult, d: Description) -> bool {
        is_text(d, empty_text(r))
    }

    open spec fn explains(&self, actual: &C, d: Description) -> bool {
        is_text(d, which_text(empty_text(result_of(actual.size_of() == 0))))
    }

    fn matches(&self, actual: &C) -> MatcherResult {
        MatcherResult::from_bool(actual.size() == 0)
    }

    fn describe(&self, matcher_result: MatcherResult) -> Description {
        let v = empty_chars(matcher_result);
        Description::from_chars(v.as_slice())
    }

    fn explain_match(&self, actual: &C) -> Description {
        let v = empty_chars(MatcherResult::from_bool(actual.size() == 0));
        which(v.as_slice())
    }
}

} // verus!
