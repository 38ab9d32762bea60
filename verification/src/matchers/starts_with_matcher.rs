//! A matcher for strings that starts with.

use vstd::prelude::*;
use core::marker::PhantomData;
use crate::description::{is_text, Description};
use crate::matcher::{result_of, text_with, which, which_text, Matcher, MatcherResult, Printable, Text};
use crate::text::chars_of;
use crate::text::{occurs_at_exec, occurs_at};

verus! {

/// Matches a string that starts with `prefix`.
pub fn starts_with<A>(prefix: &str) -> (m: StartsWithMatcher<A>)
    ensures
        m.prefix@ == prefix@,
{
    StartsWithMatcher { prefix: prefix.to_owned(), phantom: PhantomData }
}

/// Matches a string that starts with `prefix`.
pub struct StartsWithMatcher<A> {
    pub prefix: String,
    pub phantom: PhantomData<A>,
}

/// `s` starts with `prefix`.
pub open spec fn starts_with_seq(s: Seq<char>, prefix: Seq<char>) -> bool {
    prefix.len() <= s.len() && s.subrange(0, prefix.len() as int) == prefix
}

/// The one-line description of [`starts_with`] for a result.
pub open spec fn starts_with_text(printed: Seq<char>, r: MatcherResult) -> Seq<char> {
    match r {
        MatcherResult::Match => "starts with prefix "@ + printed,
        MatcherResult::NoMatch => "does not start with "@ + printed,
    }
}

impl<A> StartsWithMatcher<A> {
    fn text_chars(&self, r: MatcherResult) -> (v: Vec<char>)
        ensures
            v@ == starts_with_text(self.prefix.printed(), r),
    {
        let mut v = match r {
            MatcherResult::Match => text_with("starts with prefix ", &self.prefix),
            MatcherResult::NoMatch => text_with("does not start with ", &self.prefix),
        };
        
        v
    }
}

impl<A: Text> Matcher for StartsWithMatcher<A> {
    type ActualT = A;

    open spec fn accepts(&self, actual: &A) -> bool {
        starts_with_seq(actual@, self.prefix@)
    }

    open spec fn describes(&self, r: MatcherResult, d: Description) -> bool {
        is_text(d, starts_with_text(self.prefix.printed(), r))
    }

    open spec fn explains(&self, actual: &A, d: Description) -> bool {
        is_text(d, which_text(starts_with_text(self.prefix.printed(), result_of(self.accepts(actual)))))
    }

    fn matches(&self, actual: &A) -> MatcherResult {
        let a = chars_of(actual.as_text());
        let p = chars_of(self.prefix.as_str());
        MatcherResult::from_bool(p.len() <= a.len() && occurs_at_exec(a.as_slice(), p.as_slice(), 0))
    }

    fn describe(&self, matcher_result: MatcherResult) -> Description {
        let v = self.text_chars(matcher_result);
        Description::from_chars(v.as_slice())
    }

    fn explain_match(&self, actual: &A) -> Description {
        let r = self.matches(actual);
        let v = self.text_chars(r);
        which(v.as_slice())
    }
}

} // verus!
