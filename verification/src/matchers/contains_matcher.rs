//! A matcher for containers holding elements that an inner matcher matches,
//! optionally a number of them that a count matcher matches.

use vstd::prelude::*;
use core::marker::PhantomData;
use crate::description::{is_text, shown, Description};
use crate::matcher::{join2, join3, Container, Matcher, MatcherResult};
use crate::text::{decimal, push_decimal, push_str};

verus! {

/// Matches a container holding at least one element that `inner` matches.
pub fn contains<C, InnerMatcherT>(inner: InnerMatcherT) -> (m: ContainsMatcher<C, InnerMatcherT, NoCountMatcher>)
    ensures
        m.inner == inner,
{
    ContainsMatcher { inner, count: NoCountMatcher, phantom: PhantomData }
}

/// Matches a container holding elements that `inner` matches, as many as
/// `count` matches (or at least one, with [`NoCountMatcher`]).
pub struct ContainsMatcher<C, InnerMatcherT, CountMatcher> {
    pub inner: InnerMatcherT,
    pub count: CountMatcher,
    pub phantom: PhantomData<C>,
}

/// Marks a [`ContainsMatcher`] without a count matcher.
pub struct NoCountMatcher;

impl<C, InnerMatcherT> ContainsMatcher<C, InnerMatcherT, NoCountMatcher> {
    /// The matcher that requires the number of matching elements to match
    /// `count`.
    pub fn times<CountMatcher: Matcher<ActualT = usize>>(self, count: CountMatcher) -> (m: ContainsMatcher<C, InnerMatcherT, CountMatcher>)
        ensures
            m.inner == self.inner,
            m.count == count,
    {
        ContainsMatcher { inner: self.inner, count, phantom: self.phantom }
    }
}

/// How many of `s` the matcher `m` matches.
pub open spec fn matching_count<T, M: Matcher<ActualT = T>>(m: M, s: Seq<T>) -> nat
    decreases s.len(),
{
    if s.len() == 0 {
        0
    } else {
        matching_count(m, s.drop_last()) + if m.accepts(&s.last()) {
            1nat
        } else {
            0nat
        }
    }
}

proof fn lemma_matching_count_bound<T, M: Matcher<ActualT = T>>(m: M, s: Seq<T>)
    ensures
        matching_count(m, s) <= s.len(),
    decreases s.len(),
{
    if s.len() > 0 {
        lemma_matching_count_bound(m, s.drop_last());
    }
}

/// How many of `items` the matcher `m` matches.
pub fn count_matches<T, M: Matcher<ActualT = T>>(m: &M, items: &[T]) -> (n: usize)
    ensures
        n == matching_count(*m, items@),
{
    let mut n: usize = 0;
    let mut i: usize = 0;
    while i < items.len()
        invariant
            i <= items@.len(),
            n == matching_count(*m, items@.take(i as int)),
        decreases items@.len() - i,
    {
        proof {
            assert(items@.take(i + 1).drop_last() =~= items@.take(i as int));
            lemma_matching_count_bound(*m, items@.take(i as int));
        }
        if m.matches(&items[i]).is_match() {
            n = n + 1;
        }
        i = i + 1;
    }
    assert(items@.take(items@.len() as int) =~= items@);
    n
}

/// The description of a [`ContainsMatcher`] without a count, given the
/// rendered description `inner` of its inner matcher.
pub open spec fn contains_text(r: MatcherResult, inner: Seq<char>) -> Seq<char> {
    match r {
        MatcherResult::Match => "contains at least one element which "@ + inner,
        MatcherResult::NoMatch => "contains no element which "@ + inner,
    }
}

/// The description of a [`ContainsMatcher`] with a count, given the
/// rendered descriptions of its inner and count matchers.
pub open spec fn contains_times_text(r: MatcherResult, inner: Seq<char>, count: Seq<char>) -> Seq<char> {
    match r {
        MatcherResult::Match => "contains n elements which "@ + inner + "\n  where n "@ + count,
        MatcherResult::NoMatch => "doesn't contain n elements which "@ + inner + "\n  where n "@ + count,
    }
}

impl<C: Container<Item = T>, T, InnerMatcherT: Matcher<ActualT = T>> Matcher for ContainsMatcher<C, InnerMatcherT, NoCountMatcher> {
    type ActualT = C;

    open spec fn accepts(&self, actual: &C) -> bool {
        matching_count(self.inner, actual.elements()) > 0
    }

    open spec fn describes(&self, r: MatcherResult, d: Description) -> bool {
        exists|d1: Description|
            #[trigger] self.inner.describes(MatcherResult::Match, d1) && is_text(d, contains_text(r, shown(d1)))
    }

    open spec fn explains(&self, actual: &C, d: Description) -> bool {
        if matching_count(self.inner, actual.elements()) == 0 {
            is_text(d, "which does not contain a matching element"@)
        } else {
            is_text(d, "which contains a matching element"@)
        }
    }

    fn matches(&self, actual: &C) -> MatcherResult {
        let n = count_matches(&self.inner, actual.items());
        MatcherResult::from_bool(n > 0)
    }

    fn describe(&self, matcher_result: MatcherResult) -> Description {
        let d1 = self.inner.describe(MatcherResult::Match);
        let t1 = d1.to_chars();
        let v = match matcher_result {
            MatcherResult::Match => join2("contains at least one element which ", t1.as_slice()),
            MatcherResult::NoMatch => join2("contains no element which ", t1.as_slice()),
        };
        assert(self.inner.describes(MatcherResult::Match, d1));
        Description::from_chars(v.as_slice())
    }

    fn explain_match(&self, actual: &C) -> Description {
        let n = count_matches(&self.inner, actual.items());
        if n == 0 {
            Description::from_text("which does not contain a matching element")
        } else {
            Description::from_text("which contains a matching element")
        }
    }
}

impl<C: Container<Item = T>, T, InnerMatcherT: Matcher<ActualT = T>, CountMatcher: Matcher<ActualT = usize>> Matcher for ContainsMatcher<C, InnerMatcherT, CountMatcher> {
    type ActualT = C;

    open spec fn accepts(&self, actual: &C) -> bool {
        self.count.accepts(&(matching_count(self.inner, actual.elements()) as usize))
    }

    open spec fn describes(&self, r: MatcherResult, d: Description) -> bool {
        exists|d1: Description, d2: Description|
            #[trigger] self.inner.describes(MatcherResult::Match, d1)
                && #[trigger] self.count.describes(MatcherResult::Match, d2)
                && is_text(d, contains_times_text(r, shown(d1), shown(d2)))
    }

    open spec fn explains(&self, actual: &C, d: Description) -> bool {
        is_text(
            d,
            "which contains "@ + decimal(matching_count(self.inner, actual.elements()))
                + " matching elements"@,
        )
    }

    fn matches(&self, actual: &C) -> MatcherResult {
        let n = count_matches(&self.inner, actual.items());
        self.count.matches(&n)
    }

    fn describe(&self, matcher_result: MatcherResult) -> Description {
        let d1 = self.inner.describe(MatcherResult::Match);
        let d2 = self.count.describe(MatcherResult::Match);
        let t1 = d1.to_chars();
        let t2 = d2.to_chars();
        let head = match matcher_result {
            MatcherResult::Match => join2("contains n elements which ", t1.as_slice()),
            MatcherResult::NoMatch => join2("doesn't contain n elements which ", t1.as_slice()),
        };
        let v = join3(head.as_slice(), "\n  where n ", t2.as_slice());
        assert(self.inner.describes(MatcherResult::Match, d1));
        assert(self.count.describes(MatcherResult::Match, d2));
        Description::from_chars(v.as_slice())
    }

    fn explain_match(&self, actual: &C) -> Description {
        let n = count_matches(&self.inner, actual.items());
        let mut v: Vec<char> = Vec::new();
        push_str(&mut v, "which contains ");
        push_decimal(&mut v, n);
        push_str(&mut v, " matching elements");
        Description::from_chars(v.as_slice())
    }
}

} // verus!
