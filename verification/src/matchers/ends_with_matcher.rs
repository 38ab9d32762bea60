//! A matcher for strings that ends with.

use vstd::prelude::*;
use core::marker::PhantomData;
use crate::description::{is_text, Description};
use crate::matcher::{result_of, text_with, which, which_text, Matcher, MatcherResult, Printable, Text};
use crate::text::chars_of;
use crate::text::{occurs_at_exec, occurs_at};

verus! {

/// Matches a string that ends with `suffix`.
pub fn ends_with<A>(suffix: &str) -> (m: EndsWithMatcher<A>)
    ensures
        m.suffix@ == suffix@,
{
    EndsWithMatcher { suffix: suffix.to_owned(), phantom: PhantomData }
}

/// Matches a string that ends with `suffix`.
pub struct EndsWithMatcher<A> {
    pub suffix: String,
    pub phantom: PhantomData<A>,
}

/// `s` ends with `suffix`.
pub open spec fn ends_with_seq(s: Seq<char>, suffix: Seq<char>) -> bool {
    suffix.len() <= s.len() && s.subrange(s.len() - suffix.len(), s.len() as int) == suffix
}

/// The one-line description of [`ends_with`] for a result.
pub open spec fn ends_with_text(printed: Seq<char>, r: MatcherResult) -> Seq<char> {
    match r {
        MatcherResult::Match => "ends with suffix "@ + printed,
        MatcherResult::NoMatch => "doesn't end with suffix "@ + printed,
    }
}

impl<A> EndsWithMatcher<A> {
    fn text_chars(&self, r: MatcherResult) -> (v: Vec<char>)
        ensures
            v@ == ends_with_text(self.suffix.printed(), r),
    {
        let mut v = match r {
            MatcherResult::Match => text_with("ends with suffix ", &self.suffix),
            MatcherResult::NoMatch => text_with("doesn't end with suffix ", &self.suffix),
        };
        
        v
    }
}

impl<A: Text> Matcher for EndsWithMatcher<A> {
    type ActualT = A;

    open spec fn accepts(&self, actual: &A) -> bool {
        ends_with_seq(actual@, self.suffix@)
    }

    open spec fn describes(&self, r: MatcherResult, d: Description) -> bool {
        is_text(d, ends_with_text(self.suffix.printed(), r))
    }

    open spec fn explains(&self, actual: &A, d: Description) -> bool {
        is_text(d, which_text(ends_with_text(self.suffix.printed(), result_of(self.accepts(actual)))))
    }

    fn matches(&self, actual: &A) -> MatcherResult {
        let a = chars_of(actual.as_text());
        let p = chars_of(self.suffix.as_str());
        MatcherResult::from_bool(p.len() <= a.len() && occurs_at_exec(a.as_slice(), p.as_slice(), a.len() - p.len()))
    }

    fn describe(&self, matcher_result: MatcherResult) -> Description {
        let v = self.text_chars(matcher_result);
        Description::from_chars(v.as_slice())
    }

    fn explain_match(&self, actual: &A) -> Description {
        let r = self.matches(actual);
        let v = self.text_chars(r);
        which(v.as_slice())
    }
}

} // verus!
