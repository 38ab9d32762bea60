//! A matcher for values whose displayed text an inner matcher matches.

use vstd::prelude::*;
use core::marker::PhantomData;
use crate::description::{is_text, shown, Description};
use crate::internal::test_outcome::TestAssertionFailure;
use crate::matcher::{join2, EqualTo, Matcher, MatcherResult, Printable};
use crate::matchers::conjunction_matcher::ConjunctionMatcher;
use crate::matchers::contains_substring_matcher::ContainsSubstringMatcher;
use crate::matchers::disjunction_matcher::DisjunctionMatcher;
use crate::matchers::ends_with_matcher::EndsWithMatcher;
use crate::matchers::eq_ignoring_ascii_case_matcher::EqIgnoringCaseMatcher;
use crate::matchers::eq_matcher::EqMatcher;
use crate::matchers::not_matcher::NotMatcher;
use crate::matchers::starts_with_matcher::StartsWithMatcher;
use crate::text::{push_all, push_int, push_str, int_text};

verus! {

/// Values with a displayed text: what `{}` prints for them.
pub trait Displayable {
    /// The displayed text. Its default, for implementations that do not
    /// state it, is the empty text.
    open spec fn displayed(&self) -> Seq<char> {
        Seq::empty()
    }

    /// The displayed text.
    fn display(&self) -> (s: String)
        ensures
            s@ == self.displayed(),
    ;
}

impl Displayable for i32 {
    open spec fn displayed(&self) -> Seq<char> {
        int_text(*self as int)
    }

    fn display(&self) -> (s: String) {
        let mut v: Vec<char> = Vec::new();
        push_int(&mut v, *self as i128);
        crate::text::string_of(v.as_slice())
    }
}

impl Displayable for i64 {
    open spec fn displayed(&self) -> Seq<char> {
        int_text(*self as int)
    }

    fn display(&self) -> (s: String) {
        let mut v: Vec<char> = Vec::new();
        push_int(&mut v, *self as i128);
        crate::text::string_of(v.as_slice())
    }
}

impl Displayable for u64 {
    open spec fn displayed(&self) -> Seq<char> {
        int_text(*self as int)
    }

    fn display(&self) -> (s: String) {
        let mut v: Vec<char> = Vec::new();
        push_int(&mut v, *self as i128);
        crate::text::string_of(v.as_slice())
    }
}

impl Displayable for usize {
    open spec fn displayed(&self) -> Seq<char> {
        int_text(*self as int)
    }

    fn display(&self) -> (s: String) {
        let mut v: Vec<char> = Vec::new();
        push_int(&mut v, *self as i128);
        crate::text::string_of(v.as_slice())
    }
}

impl<'a> Displayable for &'a str {
    open spec fn displayed(&self) -> Seq<char> {
        self@
    }

    fn display(&self) -> (s: String) {
        (*self).to_owned()
    }
}

impl Displayable for String {
    open spec fn displayed(&self) -> Seq<char> {
        self@
    }

    fn display(&self) -> (s: String) {
        self.as_str().to_owned()
    }
}

impl Displayable for Description {
    open spec fn displayed(&self) -> Seq<char> {
        shown(*self)
    }

    fn display(&self) -> (s: String) {
        self.to_string()
    }
}

impl Displayable for TestAssertionFailure {
    open spec fn displayed(&self) -> Seq<char> {
        self.shown()
    }

    fn display(&self) -> (s: String) {
        self.to_string()
    }
}

/// Matchers of strings whose results depend only on the text.
pub trait TextMatcher: Matcher<ActualT = String> {
    /// Two strings with the same text match alike and are explained alike.
    proof fn lemma_by_text(&self, a: &String, b: &String)
        requires
            a@ == b@,
        ensures
            self.accepts(a) == self.accepts(b),
            forall|d: Description| self.explains(a, d) == self.explains(b, d),
    ;
}

impl<'b> TextMatcher for EqMatcher<String, &'b str> {
    proof fn lemma_by_text(&self, a: &String, b: &String) {
        assert(a.pretty() == b.pretty());
        assert forall|d: Description| self.explains(a, d) == self.explains(b, d) by {
            assert(self.accepts(a) == self.accepts(b));
        }
    }
}

impl TextMatcher for EqMatcher<String, String> {
    proof fn lemma_by_text(&self, a: &String, b: &String) {
        assert(a.pretty() == b.pretty());
        assert forall|d: Description| self.explains(a, d) == self.explains(b, d) by {
            assert(self.accepts(a) == self.accepts(b));
        }
    }
}

impl TextMatcher for ContainsSubstringMatcher<String> {
    proof fn lemma_by_text(&self, a: &String, b: &String) {
    }
}

impl TextMatcher for StartsWithMatcher<String> {
    proof fn lemma_by_text(&self, a: &String, b: &String) {
    }
}

impl TextMatcher for EndsWithMatcher<String> {
    proof fn lemma_by_text(&self, a: &String, b: &String) {
    }
}

impl TextMatcher for EqIgnoringCaseMatcher<String> {
    proof fn lemma_by_text(&self, a: &String, b: &String) {
    }
}

impl<M: TextMatcher> TextMatcher for NotMatcher<M> {
    proof fn lemma_by_text(&self, a: &String, b: &String) {
        self.inner.lemma_by_text(a, b);
    }
}

impl<M1: TextMatcher, M2: TextMatcher> TextMatcher for ConjunctionMatcher<M1, M2> {
    proof fn lemma_by_text(&self, a: &String, b: &String) {
        self.m1.lemma_by_text(a, b);
        self.m2.lemma_by_text(a, b);
    }
}

impl<M1: TextMatcher, M2: TextMatcher> TextMatcher for DisjunctionMatcher<M1, M2> {
    proof fn lemma_by_text(&self, a: &String, b: &String) {
        self.m1.lemma_by_text(a, b);
        self.m2.lemma_by_text(a, b);
    }
}

/// Matches a value whose displayed text `inner` matches.
pub fn displays_as<A, M: TextMatcher>(inner: M) -> (m: DisplayMatcher<A, M>)
    ensures
        m.inner == inner,
{
    DisplayMatcher { inner, phantom: PhantomData }
}

/// Matches a value whose displayed text `inner` matches.
pub struct DisplayMatcher<A, M> {
    pub inner: M,
    pub phantom: PhantomData<A>,
}

impl<A: Displayable, M: TextMatcher> Matcher for DisplayMatcher<A, M> {
    type ActualT = A;

    open spec fn accepts(&self, actual: &A) -> bool {
        exists|s: String| s@ == actual.displayed() && #[trigger] self.inner.accepts(&s)
    }

    open spec fn describes(&self, r: MatcherResult, d: Description) -> bool {
        exists|d1: Description|
            #[trigger] self.inner.describes(MatcherResult::Match, d1) && is_text(
                d,
                (match r {
                    MatcherResult::Match => "displays as a string which "@,
                    MatcherResult::NoMatch => "doesn't display as a string which "@,
                }) + shown(d1),
            )
    }

    open spec fn explains(&self, actual: &A, d: Description) -> bool {
        exists|s: String, e1: Description|
            s@ == actual.displayed() && #[trigger] self.inner.explains(&s, e1) && is_text(
                d,
                "which displays as "@ + s.printed() + " "@ + shown(e1),
            )
    }

    fn matches(&self, actual: &A) -> MatcherResult {
        let s = actual.display();
        let r = self.inner.matches(&s);
        proof {
            if !self.inner.accepts(&s) {
                assert forall|t: String| t@ == actual.displayed() implies !#[trigger] self.inner.accepts(&t) by {
                    self.inner.lemma_by_text(&s, &t);
                }
            }
        }
        r
    }

    fn describe(&self, matcher_result: MatcherResult) -> Description {
        let d1 = self.inner.describe(MatcherResult::Match);
        let t1 = d1.to_chars();
        let v = match matcher_result {
            MatcherResult::Match => join2("displays as a string which ", t1.as_slice()),
            MatcherResult::NoMatch => join2("doesn't display as a string which ", t1.as_slice()),
        };
        assert(self.inner.describes(MatcherResult::Match, d1));
        Description::from_chars(v.as_slice())
    }

    fn explain_match(&self, actual: &A) -> Description {
        let s = actual.display();
        let e1 = self.inner.explain_match(&s);
        let t1 = e1.to_chars();
        let mut v: Vec<char> = Vec::new();
        push_str(&mut v, "which displays as ");
        s.print_to(&mut v);
        push_str(&mut v, " ");
        push_all(&mut v, t1.as_slice());
        assert(self.inner.explains(&s, e1));
        Description::from_chars(v.as_slice())
    }
}

} // verus!
