//! A matcher that matches every value.

use vstd::prelude::*;
use core::marker::PhantomData;
use crate::description::{is_text, Description};
use crate::matcher::{result_of, which, which_text, Matcher, MatcherResult};
use crate::text::chars_of;

verus! {

/// Matches anything. This matcher always succeeds.
pub struct Anything<T: ?Sized> {
    phantom: PhantomData<T>,
}

/// Matches anything. This matcher always succeeds.
pub fn anything<T: ?Sized>() -> (m: Anything<T>) {
    Anything { phantom: PhantomData }
}

/// The one-line description of [`anything`] for a result.
pub open spec fn anything_text(r: MatcherResult) -> Seq<char> {
    match r {
        MatcherResult::Match => "is anything"@,
        MatcherResult::NoMatch => "never matches"@,
    }
}

fn anything_chars(r: MatcherResult) -> (v: Vec<char>)
    ensures
        v@ == anything_text(r),
{
    match r {
        MatcherResult::Match => chars_of("is anything"),
        MatcherResult::NoMatch => chars_of("never matches"),
    }
}

impl<T: ?Sized> Matcher for Anything<T> {
    type ActualT = T;

    open spec fn accepts(&self, actual: &T) -> bool {
        true
    }

    open spec fn describes(&self, r: MatcherResult, d: Description) -> bool {
        is_text(d, anything_text(r))
    }

    open spec fn explains(&self, actual: &T, d: Description) -> bool {
        is_text(d, which_text(anything_text(MatcherResult::Match)))
    }

    fn matches(&self, actual: &T) -> MatcherResult {
        MatcherResult::Match
    }

    fn describe(&self, matcher_result: MatcherResult) -> Description {
        let v = anything_chars(matcher_result);
        Description::from_chars(v.as_slice())
    }

    fn explain_match(&self, actual: &T) -> Description {
        let v = anything_chars(MatcherResult::Match);
        which(v.as_slice())
    }
}

} // verus!
