//! Matchers for `true` and `false`.

use vstd::prelude::*;
use crate::description::{is_text, Description};
use crate::matcher::{result_of, which, which_text, Matcher, MatcherResult};
use crate::text::chars_of;

verus! {

/// Matches boolean value `true`.
pub fn is_true() -> (m: BoolMatcher)
    ensures
        m.expected,
{
    BoolMatcher { expected: true }
}

/// Matches boolean value `false`.
pub fn is_false() -> (m: BoolMatcher)
    ensures
        !m.expected,
{
    BoolMatcher { expected: false }
}

/// Matches a `bool` equal to `expected`.
pub struct BoolMatcher {
    pub expected: bool,
}

/// The one-line description of a [`BoolMatcher`] for a result: the value it
/// matches, or for `NoMatch` the other one.
pub open spec fn bool_text(expected: bool, r: MatcherResult) -> Seq<char> {
    if (r == MatcherResult::Match) == expected {
        "is true"@
    } else {
        "is false"@
    }
}

impl BoolMatcher {
    fn text_chars(&self, r: MatcherResult) -> (v: Vec<char>)
        ensures
            v@ == bool_text(self.expected, r),
    {
        if r.is_match() == self.expected {
            chars_of("is true")
        } else {
            chars_of("is false")
        }
    }
}

impl Matcher for BoolMatcher {
    type ActualT = bool;

    open spec fn accepts(&self, actual: &bool) -> bool {
        *actual == self.expected
    }

    open spec fn describes(&self, r: MatcherResult, d: Description) -> bool {
        is_text(d, bool_text(self.expected, r))
    }

    open spec fn explains(&self, actual: &bool, d: Description) -> bool {
        is_text(d, which_text(bool_text(self.expected, result_of(*actual == self.expected))))
    }

    fn matches(&self, actual: &bool) -> MatcherResult {
        MatcherResult::from_bool(*actual == self.expected)
    }

    fn describe(&self, matcher_result: MatcherResult) -> Description {
        let v = self.text_chars(matcher_result);
        Description::from_chars(v.as_slice())
    }

    fn explain_match(&self, actual: &bool) -> Description {
        let r = MatcherResult::from_bool(*actual == self.expected);
        let v = self.text_chars(r);
        which(v.as_slice())
    }
}

} // verus!
