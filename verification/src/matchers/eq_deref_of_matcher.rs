//! A matcher for values equal to the target of an expected pointer.

use vstd::prelude::*;
use core::marker::PhantomData;
use crate::description::{is_text, Description};
use crate::matcher::{
    printed_pretty_chars, result_of, text_with, which_text, EqualTo, Matcher, MatcherResult,
    Pointer, Printable,
};
use crate::matcher_support::edit_distance::Mode;
use crate::matcher_support::summarize_diff::{create_diff, is_diff};
use crate::matchers::eq_matcher::eq_text;
use crate::text::{lines, push_all, push_str};

verus! {

/// Matches a value equal to what `expected` points to; its difference
/// summaries are not colored.
pub fn eq_deref_of<A, R>(expected: R) -> (m: EqDerefOfMatcher<A, R>)
    ensures
        m.expected == expected,
        !m.color,
{
    EqDerefOfMatcher { expected, color: false, phantom: PhantomData }
}

/// Matches a value equal to what `expected` points to; `color` says whether
/// the difference summary in its explanation is colored.
pub struct EqDerefOfMatcher<A, R> {
    pub expected: R,
    pub color: bool,
    pub phantom: PhantomData<A>,
}

impl<A, R> EqDerefOfMatcher<A, R> {
    /// The same matcher, with colored difference summaries when `color`.
    pub fn colored(self, color: bool) -> (m: EqDerefOfMatcher<A, R>)
        ensures
            m.expected == self.expected,
            m.color == color,
    {
        EqDerefOfMatcher { expected: self.expected, color, phantom: self.phantom }
    }
}

impl<A: Printable, T: Printable + ?Sized, R: Pointer<Target = T> + Printable> Matcher for EqDerefOfMatcher<A, R>
    where
        A: EqualTo<T>,
{
    type ActualT = A;

    open spec fn accepts(&self, actual: &A) -> bool {
        actual.equal_to(self.expected.points_to())
    }

    open spec fn describes(&self, r: MatcherResult, d: Description) -> bool {
        is_text(d, eq_text(self.expected.printed(), r))
    }

    open spec fn explains(&self, actual: &A, d: Description) -> bool {
        exists|diff: Seq<char>|
            #[trigger] is_diff(lines(self.expected.points_to().pretty()), lines(actual.pretty()), Mode::Exact, self.color, diff)
                && is_text(d, which_text(eq_text(self.expected.printed(), result_of(self.accepts(actual)))) + diff)
    }

    fn matches(&self, actual: &A) -> MatcherResult {
        MatcherResult::from_bool(actual.is_equal_to(self.expected.target()))
    }

    fn describe(&self, matcher_result: MatcherResult) -> Description {
        let v = match matcher_result {
            MatcherResult::Match => text_with("is equal to ", &self.expected),
            MatcherResult::NoMatch => text_with("isn't equal to ", &self.expected),
        };
        Description::from_chars(v.as_slice())
    }

    fn explain_match(&self, actual: &A) -> Description {
        let r = self.matches(actual);
        let v = match r {
            MatcherResult::Match => text_with("is equal to ", &self.expected),
            MatcherResult::NoMatch => text_with("isn't equal to ", &self.expected),
        };
        let e = printed_pretty_chars(self.expected.target());
        let a = printed_pretty_chars(actual);
        let se = crate::text::string_of(e.as_slice());
        let sa = crate::text::string_of(a.as_slice());
        let diff = create_diff(se.as_str(), sa.as_str(), Mode::Exact, self.color);
        let mut out: Vec<char> = Vec::new();
        push_str(&mut out, "which ");
        push_all(&mut out, v.as_slice());
        push_str(&mut out, diff.as_str());
        proof {
            reveal_strlit("which ");
        }
        assert(out@ =~= which_text(v@) + diff@);
        Description::from_chars(out.as_slice())
    }
}

} // verus!
