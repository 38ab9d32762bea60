//! A matcher for strings whose number of characters an inner matcher
//! matches.

use vstd::prelude::*;
use core::marker::PhantomData;
use crate::description::{is_text, shown, Description};
use crate::matcher::{join2, Matcher, MatcherResult, Text};
use crate::text::{chars_of, decimal, push_all, push_decimal, push_str};

verus! {

/// Matches a string whose number of characters `expected` matches.
pub fn char_count<T, E: Matcher<ActualT = usize>>(expected: E) -> (m: CharLenMatcher<T, E>)
    ensures
        m.expected == expected,
{
    CharLenMatcher { expected, phantom: PhantomData }
}

/// Matches a string whose number of characters `expected` matches.
pub struct CharLenMatcher<T, E> {
    pub expected: E,
    pub phantom: PhantomData<T>,
}

/// The number of characters of a string, which fits in a `usize`.
pub open spec fn char_len(s: Seq<char>) -> usize {
    s.len() as usize
}

impl<T: Text, E: Matcher<ActualT = usize>> Matcher for CharLenMatcher<T, E> {
    type ActualT = T;

    open spec fn accepts(&self, actual: &T) -> bool {
        self.expected.accepts(&char_len(actual@))
    }

    open spec fn describes(&self, r: MatcherResult, d: Description) -> bool {
        exists|d1: Description|
            #[trigger] self.expected.describes(r, d1) && is_text(
                d,
                "has character count, which "@ + shown(d1),
            )
    }

    open spec fn explains(&self, actual: &T, d: Description) -> bool {
        exists|e1: Description|
            #[trigger] self.expected.explains(&char_len(actual@), e1) && is_text(
                d,
                "which has character count "@ + decimal(actual@.len()) + ", "@ + shown(e1),
            )
    }

    fn matches(&self, actual: &T) -> MatcherResult {
        let n = chars_of(actual.as_text()).len();
        self.expected.matches(&n)
    }

    fn describe(&self, matcher_result: MatcherResult) -> Description {
        let d1 = self.expected.describe(matcher_result);
        let t1 = d1.to_chars();
        let v = join2("has character count, which ", t1.as_slice());
        assert(self.expected.describes(matcher_result, d1));
        Description::from_chars(v.as_slice())
    }

    fn explain_match(&self, actual: &T) -> Description {
        let n = chars_of(actual.as_text()).len();
        let e1 = self.expected.explain_match(&n);
        let t1 = e1.to_chars();
        let mut v: Vec<char> = Vec::new();
        push_str(&mut v, "which has character count ");
        push_decimal(&mut v, n);
        push_str(&mut v, ", ");
        push_all(&mut v, t1.as_slice());
        assert(self.expected.explains(&char_len(actual@), e1));
        Description::from_chars(v.as_slice())
    }
}

} // verus!
