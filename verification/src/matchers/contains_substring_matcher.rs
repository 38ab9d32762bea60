//! A matcher for strings that contains.

use vstd::prelude::*;
use core::marker::PhantomData;
use crate::description::{is_text, Description};
use crate::matcher::{result_of, text_with, which, which_text, Matcher, MatcherResult, Printable, Text};
use crate::text::chars_of;
use crate::text::{contains_chars, contains_seq};

verus! {

/// Matches a string that contains `substring`.
pub fn contains_substring<A>(substring: &str) -> (m: ContainsSubstringMatcher<A>)
    ensures
        m.substring@ == substring@,
{
    ContainsSubstringMatcher { substring: substring.to_owned(), phantom: PhantomData }
}

/// Matches a string that contains `substring`.
pub struct ContainsSubstringMatcher<A> {
    pub substring: String,
    pub phantom: PhantomData<A>,
}


/// The one-line description of [`contains_substring`] for a result.
pub open spec fn contains_substring_text(printed: Seq<char>, r: MatcherResult) -> Seq<char> {
    match r {
        MatcherResult::Match => "contains substring "@ + printed,
        MatcherResult::NoMatch => "does not contain substring "@ + printed,
    }
}

impl<A> ContainsSubstringMatcher<A> {
    fn text_chars(&self, r: MatcherResult) -> (v: Vec<char>)
        ensures
            v@ == contains_substring_text(self.substring.printed(), r),
    {
        let mut v = match r {
            MatcherResult::Match => text_with("contains substring ", &self.substring),
            MatcherResult::NoMatch => text_with("does not contain substring ", &self.substring),
        };
        
        v
    }
}

impl<A: Text> Matcher for ContainsSubstringMatcher<A> {
    type ActualT = A;

    open spec fn accepts(&self, actual: &A) -> bool {
        contains_seq(actual@, self.substring@)
    }

    open spec fn describes(&self, r: MatcherResult, d: Description) -> bool {
        is_text(d, contains_substring_text(self.substring.printed(), r))
    }

    open spec fn explains(&self, actual: &A, d: Description) -> bool {
        is_text(d, which_text(contains_substring_text(self.substring.printed(), result_of(self.accepts(actual)))))
    }

    fn matches(&self, actual: &A) -> MatcherResult {
        let a = chars_of(actual.as_text());
        let p = chars_of(self.substring.as_str());
        MatcherResult::from_bool(contains_chars(a.as_slice(), p.as_slice()))
    }

    fn describe(&self, matcher_result: MatcherResult) -> Description {
        let v = self.text_chars(matcher_result);
        Description::from_chars(v.as_slice())
    }

    fn explain_match(&self, actual: &A) -> Description {
        let r = self.matches(actual);
        let v = self.text_chars(r);
        which(v.as_slice())
    }
}

} // verus!
