//! A matcher for strings that equals, ignoring ASCII case,.

use vstd::prelude::*;
use core::marker::PhantomData;
use crate::description::{is_text, Description};
use crate::matcher::{result_of, text_with, which, which_text, Matcher, MatcherResult, Printable, Text};
use crate::text::chars_of;
use crate::text::{ascii_lower, equal_ignoring_ascii_case, same_ignoring_ascii_case};

verus! {

/// Matches a string that equals, ignoring ASCII case, `expected`.
pub fn eq_ignoring_ascii_case<A>(expected: &str) -> (m: EqIgnoringCaseMatcher<A>)
    ensures
        m.expected@ == expected@,
{
    EqIgnoringCaseMatcher { expected: expected.to_owned(), phantom: PhantomData }
}

/// Matches a string that equals, ignoring ASCII case, `expected`.
pub struct EqIgnoringCaseMatcher<A> {
    pub expected: String,
    pub phantom: PhantomData<A>,
}


/// The one-line description of [`eq_ignoring_ascii_case`] for a result.
pub open spec fn eq_ignoring_ascii_case_text(printed: Seq<char>, r: MatcherResult) -> Seq<char> {
    match r {
        MatcherResult::Match => "is equal to "@ + printed + " (ignoring case)"@,
        MatcherResult::NoMatch => "isn't equal to "@ + printed + " (ignoring case)"@,
    }
}

impl<A> EqIgnoringCaseMatcher<A> {
    fn text_chars(&self, r: MatcherResult) -> (v: Vec<char>)
        ensures
            v@ == eq_ignoring_ascii_case_text(self.expected.printed(), r),
    {
        let mut v = match r {
            MatcherResult::Match => text_with("is equal to ", &self.expected),
            MatcherResult::NoMatch => text_with("isn't equal to ", &self.expected),
        };
        crate::text::push_str(&mut v, " (ignoring case)");
        v
    }
}

impl<A: Text> Matcher for EqIgnoringCaseMatcher<A> {
    type ActualT = A;

    open spec fn accepts(&self, actual: &A) -> bool {
        same_ignoring_ascii_case(actual@, self.expected@)
    }

    open spec fn describes(&self, r: MatcherResult, d: Description) -> bool {
        is_text(d, eq_ignoring_ascii_case_text(self.expected.printed(), r))
    }

    open spec fn explains(&self, actual: &A, d: Description) -> bool {
        is_text(d, which_text(eq_ignoring_ascii_case_text(self.expected.printed(), result_of(self.accepts(actual)))))
    }

    fn matches(&self, actual: &A) -> MatcherResult {
        let a = chars_of(actual.as_text());
        let p = chars_of(self.expected.as_str());
        MatcherResult::from_bool(equal_ignoring_ascii_case(a.as_slice(), p.as_slice()))
    }

    fn describe(&self, matcher_result: MatcherResult) -> Description {
        let v = self.text_chars(matcher_result);
        Description::from_chars(v.as_slice())
    }

    fn explain_match(&self, actual: &A) -> Description {
        let r = self.matches(actual);
        let v = self.text_chars(r);
        which(v.as_slice())
    }
}

} // verus!
