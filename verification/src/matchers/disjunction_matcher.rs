//! A matcher that matches when at least one of two matchers matches.

use vstd::prelude::*;
use crate::description::Description;
use crate::internal::description_renderer::{fragment_views, Block, Decoration, List};
use crate::matcher::{Matcher, MatcherResult};
use crate::text::lines;

verus! {

/// Matches a value when `m1` or `m2` (or both) match it.
pub struct DisjunctionMatcher<M1, M2> {
    pub m1: M1,
    pub m2: M2,
}

impl<M1, M2> DisjunctionMatcher<M1, M2> {
    /// Matches a value when `m1` or `m2` (or both) match it.
    pub fn new(m1: M1, m2: M2) -> (m: DisjunctionMatcher<M1, M2>)
        ensures
            m.m1 == m1,
            m.m2 == m2,
    {
        DisjunctionMatcher { m1, m2 }
    }
}

/// Matchers that can be combined with `or`.
pub trait OrMatcherExt: Matcher + Sized {
    /// Constructs a matcher that matches when at least one of `self` or
    /// `right` matches the input.
    fn or<Right: Matcher<ActualT = Self::ActualT>>(self, right: Right) -> (m: DisjunctionMatcher<Self, Right>)
        ensures
            m.m1 == self,
            m.m2 == right,
    {
        DisjunctionMatcher::new(self, right)
    }
}

impl<M: Matcher> OrMatcherExt for M {}

/// The header of the description of a disjunction.
pub open spec fn disjunction_header(r: MatcherResult) -> Seq<char> {
    match r {
        MatcherResult::Match => "has at least one of the following properties:"@,
        MatcherResult::NoMatch => "has all of the following properties:"@,
    }
}

/// `l` is a bullet list of the blocks of `d1` and of `d2`, each nested.
pub open spec fn bullets_of(l: List, d1: Description, d2: Description) -> bool {
    &&& l.1 == Decoration::Bullet
    &&& l.0@ == seq![Block::Nested(d1.elements), Block::Nested(d2.elements)]
}

/// `d` is `header` followed by the bullet list of `d1` and `d2`, nested.
pub open spec fn headed_bullets(d: Description, header: Seq<char>, d1: Description, d2: Description) -> bool {
    &&& d.initial_indentation == 0
    &&& d.elements.1 == Decoration::Undecorated
    &&& d.elements.0@.len() == 2
    &&& d.elements.0@[0] matches Block::Literal(f) && fragment_views(f@) == lines(header)
    &&& d.elements.0@[1] matches Block::Nested(l) && bullets_of(l, d1, d2)
}

/// Two descriptions, in order, nested in a bullet list.
fn bullet_pair(d1: Description, d2: Description) -> (d: Description)
    ensures
        d.initial_indentation == 0,
        bullets_of(d.elements, d1, d2),
{
    let ghost (g1, g2) = (d1, d2);
    let d = Description::new().bullet_list().collect(vec![d1, d2]);
    assert(d.elements.0@ =~= seq![Block::Nested(g1.elements), Block::Nested(g2.elements)]);
    d
}

impl<T: ?Sized, M1: Matcher<ActualT = T>, M2: Matcher<ActualT = T>> Matcher for DisjunctionMatcher<M1, M2> {
    type ActualT = T;

    open spec fn accepts(&self, actual: &T) -> bool {
        self.m1.accepts(actual) || self.m2.accepts(actual)
    }

    open spec fn describes(&self, r: MatcherResult, d: Description) -> bool {
        exists|d1: Description, d2: Description|
            #[trigger] self.m1.describes(r, d1) && #[trigger] self.m2.describes(r, d2)
                && headed_bullets(d, disjunction_header(r), d1, d2)
    }

    open spec fn explains(&self, actual: &T, d: Description) -> bool {
        let a1 = self.m1.accepts(actual);
        let a2 = self.m2.accepts(actual);
        if !a1 && a2 {
            self.m1.explains(actual, d)
        } else if a1 && !a2 {
            self.m2.explains(actual, d)
        } else {
            exists|e1: Description, e2: Description|
                #[trigger] self.m1.explains(actual, e1) && #[trigger] self.m2.explains(actual, e2)
                    && d.initial_indentation == 0 && bullets_of(d.elements, e1, e2)
        }
    }

    fn matches(&self, actual: &T) -> MatcherResult {
        let r1 = self.m1.matches(actual);
        let r2 = self.m2.matches(actual);
        if r1.is_no_match() && r2.is_no_match() {
            MatcherResult::NoMatch
        } else {
            MatcherResult::Match
        }
    }

    fn describe(&self, matcher_result: MatcherResult) -> Description {
        let d1 = self.m1.describe(matcher_result);
        let d2 = self.m2.describe(matcher_result);
        let ghost (g1, g2) = (d1, d2);
        let header = match matcher_result {
            MatcherResult::Match => "has at least one of the following properties:",
            MatcherResult::NoMatch => "has all of the following properties:",
        };
        let d = Description::new().text(header).nested(bullet_pair(d1, d2));
        assert(d.elements.0@[0] == d.elements.0@.drop_last()[0]);
        assert(self.m1.describes(matcher_result, g1) && self.m2.describes(matcher_result, g2));
        d
    }

    fn explain_match(&self, actual: &T) -> Description {
        let r1 = self.m1.matches(actual);
        let r2 = self.m2.matches(actual);
        if r1.is_no_match() && r2.is_match() {
            self.m1.explain_match(actual)
        } else if r1.is_match() && r2.is_no_match() {
            self.m2.explain_match(actual)
        } else {
            let e1 = self.m1.explain_match(actual);
            let e2 = self.m2.explain_match(actual);
            let ghost (g1, g2) = (e1, e2);
            let d = bullet_pair(e1, e2);
            assert(self.m1.explains(actual, g1) && self.m2.explains(actual, g2));
            d
        }
    }
}

} // verus!
