//! A matcher for `Err` results whose error matches an inner matcher.

use vstd::prelude::*;
use core::marker::PhantomData;
use crate::description::{is_text, shown, Description};
use crate::internal::description_renderer::{fragment_views, Block, Decoration};
use crate::matcher::{join2, Matcher, MatcherResult};
use crate::text::lines;

verus! {

/// Matches a `Result` holding an error which `inner` matches.
pub fn err<T, Inner>(inner: Inner) -> (m: ErrMatcher<T, Inner>)
    ensures
        m.inner == inner,
{
    ErrMatcher { inner, phantom: PhantomData }
}

/// Matches a `Result` holding an error which `inner` matches.
pub struct ErrMatcher<T, InnerMatcherT> {
    pub inner: InnerMatcherT,
    pub phantom: PhantomData<T>,
}

/// The start of the description of [`err`] for a result.
pub open spec fn err_header(r: MatcherResult) -> Seq<char> {
    match r {
        MatcherResult::Match => "is an error which "@,
        MatcherResult::NoMatch => "is a success or is an error containing a value which "@,
    }
}

/// `d` is the line `header` followed by `inner` nested below it.
pub open spec fn text_then_nested(d: Description, header: Seq<char>, inner: Description) -> bool {
    &&& d.initial_indentation == 0
    &&& d.elements.1 == Decoration::Undecorated
    &&& d.elements.0@.len() == 2
    &&& d.elements.0@[0] matches Block::Literal(f) && fragment_views(f@) == lines(header)
    &&& d.elements.0@[1] == Block::Nested(inner.elements)
}

/// The line `header` followed by `inner` nested below it.
pub fn header_then(header: &str, inner: Description) -> (d: Description)
    ensures
        text_then_nested(d, header@, inner),
{
    let ghost g = inner;
    let d = Description::new().text(header).nested(inner);
    assert(d.elements.0@[0] == d.elements.0@.drop_last()[0]);
    d
}

impl<T, E, InnerMatcherT: Matcher<ActualT = E>> Matcher for ErrMatcher<T, InnerMatcherT> {
    type ActualT = Result<T, E>;

    open spec fn accepts(&self, actual: &Result<T, E>) -> bool {
        match actual {
            Err(e) => self.inner.accepts(e),
            Ok(_) => false,
        }
    }

    open spec fn describes(&self, r: MatcherResult, d: Description) -> bool {
        exists|d1: Description|
            #[trigger] self.inner.describes(r, d1) && is_text(d, err_header(r) + shown(d1))
    }

    open spec fn explains(&self, actual: &Result<T, E>, d: Description) -> bool {
        match actual {
            Err(e) => exists|e1: Description|
                #[trigger] self.inner.explains(e, e1) && text_then_nested(d, "which is an error"@, e1),
            Ok(_) => is_text(d, "which is a success"@),
        }
    }

    fn matches(&self, actual: &Result<T, E>) -> MatcherResult {
        match actual {
            Err(e) => self.inner.matches(e),
            Ok(_) => MatcherResult::NoMatch,
        }
    }

    fn describe(&self, matcher_result: MatcherResult) -> Description {
        let d1 = self.inner.describe(matcher_result);
        let t1 = d1.to_chars();
        let v = match matcher_result {
            MatcherResult::Match => join2("is an error which ", t1.as_slice()),
            MatcherResult::NoMatch => join2(
                "is a success or is an error containing a value which ",
                t1.as_slice(),
            ),
        };
        assert(self.inner.describes(matcher_result, d1));
        Description::from_chars(v.as_slice())
    }

    fn explain_match(&self, actual: &Result<T, E>) -> Description {
        match actual {
            Err(e) => {
                let e1 = self.inner.explain_match(e);
                let ghost g = e1;
                let d = header_then("which is an error", e1);
                assert(self.inner.explains(e, g));
                d
            },
            Ok(_) => Description::from_text("which is a success"),
        }
    }
}

} // verus!
