//! A matcher that names the property its inner matcher checks.

use vstd::prelude::*;
use crate::description::{is_text, shown, Description};
use crate::matcher::{Matcher, MatcherResult};
use crate::text::{push_all, push_str};

verus! {

/// Matches what `inner` matches, describing it as "is `description` which
/// ...".
pub fn is<M>(description: &str, inner: M) -> (m: IsMatcher<M>)
    ensures
        m.description@ == description@,
        m.inner == inner,
{
    IsMatcher { description: description.to_owned(), inner }
}

/// Matches what `inner` matches, under a name.
pub struct IsMatcher<M> {
    pub description: String,
    pub inner: M,
}

impl<M: Matcher> Matcher for IsMatcher<M> {
    type ActualT = M::ActualT;

    open spec fn accepts(&self, actual: &M::ActualT) -> bool {
        self.inner.accepts(actual)
    }

    open spec fn describes(&self, r: MatcherResult, d: Description) -> bool {
        exists|d1: Description|
            #[trigger] self.inner.describes(MatcherResult::Match, d1) && is_text(
                d,
                (match r {
                    MatcherResult::Match => "is "@,
                    MatcherResult::NoMatch => "is not "@,
                }) + self.description@ + " which "@ + shown(d1),
            )
    }

    open spec fn explains(&self, actual: &M::ActualT, d: Description) -> bool {
        self.inner.explains(actual, d)
    }

    fn matches(&self, actual: &M::ActualT) -> MatcherResult {
        self.inner.matches(actual)
    }

    fn describe(&self, matcher_result: MatcherResult) -> Description {
        let d1 = self.inner.describe(MatcherResult::Match);
        let t1 = d1.to_chars();
        let mut v: Vec<char> = Vec::new();
        match matcher_result {
            MatcherResult::Match => push_str(&mut v, "is "),
            MatcherResult::NoMatch => push_str(&mut v, "is not "),
        }
        push_str(&mut v, self.description.as_str());
        push_str(&mut v, " which ");
        push_all(&mut v, t1.as_slice());
        assert(self.inner.describes(MatcherResult::Match, d1));
        Description::from_chars(v.as_slice())
    }

    fn explain_match(&self, actual: &M::ActualT) -> Description {
        self.inner.explain_match(actual)
    }
}

} // verus!
