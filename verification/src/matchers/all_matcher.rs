//! A matcher that matches when all of a list of matchers match.

use vstd::prelude::*;
use core::marker::PhantomData;
use crate::description::{is_listed, is_text, shown, Description};
use crate::internal::description_renderer::Decoration;
use crate::matcher::{which, which_text, Matcher, MatcherResult};
use crate::matchers::anything_matcher::anything_text;
use crate::matchers::elements_are_matcher::shown_all;
use crate::text::{push_all, push_str};

verus! {

/// Matches a value when all of `components` match it.
pub struct AllMatcher<T, M> {
    pub components: Vec<M>,
    pub phantom: PhantomData<T>,
}

impl<T, M> AllMatcher<T, M> {
    /// Matches a value when all of `components` match it.
    pub fn new(components: Vec<M>) -> (m: AllMatcher<T, M>)
        ensures
            m.components@ == components@,
    {
        AllMatcher { components, phantom: PhantomData }
    }
}

/// The indices of the components that do not match `actual`, below `n`.
pub open spec fn failing_components<T, M: Matcher<ActualT = T>>(ms: Seq<M>, actual: &T, n: int) -> Seq<int>
    decreases n,
{
    if n <= 0 {
        Seq::empty()
    } else if ms[n - 1].accepts(actual) {
        failing_components(ms, actual, n - 1)
    } else {
        failing_components(ms, actual, n - 1).push(n - 1)
    }
}

/// How the explanations of failing components are listed: a single one
/// plainly, others as an indented bullet list.
pub open spec fn failure_decoration(n: nat) -> Decoration {
    if n == 1 {
        Decoration::Undecorated
    } else {
        Decoration::Bullet
    }
}

/// The indentation of the listed explanations of failing components.
pub open spec fn failure_indentation(n: nat) -> nat {
    if n == 1 {
        0
    } else {
        2
    }
}

/// The header of the description of several components.
pub open spec fn all_header(r: MatcherResult) -> Seq<char> {
    match r {
        MatcherResult::Match => "has all the following properties:\n"@,
        MatcherResult::NoMatch => "has at least one of the following properties:\n"@,
    }
}

impl<T, M: Matcher<ActualT = T>> Matcher for AllMatcher<T, M> {
    type ActualT = T;

    open spec fn accepts(&self, actual: &T) -> bool {
        forall|i: int| 0 <= i < self.components@.len() ==> #[trigger] self.components@[i].accepts(actual)
    }

    open spec fn describes(&self, r: MatcherResult, d: Description) -> bool {
        let ms = self.components@;
        if ms.len() == 0 {
            is_text(d, anything_text(r))
        } else if ms.len() == 1 {
            ms[0].describes(r, d)
        } else {
            exists|ds: Seq<Description>, ld: Description|
                #![trigger is_listed(ld, shown_all(ds), Decoration::Bullet, 2)]
                ds.len() == ms.len()
                && (forall|i: int| 0 <= i < ds.len() ==> #[trigger] ms[i].describes(r, ds[i]))
                && is_listed(ld, shown_all(ds), Decoration::Bullet, 2)
                && is_text(d, all_header(r) + shown(ld))
        }
    }

    open spec fn explains(&self, actual: &T, d: Description) -> bool {
        let ms = self.components@;
        let bad = failing_components(ms, actual, ms.len() as int);
        if ms.len() == 0 {
            is_text(d, which_text(anything_text(MatcherResult::Match)))
        } else if ms.len() == 1 {
            ms[0].explains(actual, d)
        } else {
            exists|es: Seq<Description>, ld: Description|
                #![trigger is_listed(ld, shown_all(es), failure_decoration(bad.len()), failure_indentation(bad.len()))]
                es.len() == bad.len()
                && (forall|k: int| 0 <= k < bad.len() ==> #[trigger] ms[bad[k]].explains(actual, es[k]))
                && is_listed(ld, shown_all(es), failure_decoration(bad.len()), failure_indentation(bad.len()))
                && is_text(d, if bad.len() == 1 { shown(ld) } else { seq!['\n'] + shown(ld) })
        }
    }

    fn matches(&self, actual: &T) -> MatcherResult {
        let mut i: usize = 0;
        while i < self.components.len()
            invariant
                i <= self.components@.len(),
                forall|k: int| 0 <= k < i ==> #[trigger] self.components@[k].accepts(actual),
            decreases self.components@.len() - i,
        {
            if self.components[i].matches(actual).is_no_match() {
                return MatcherResult::NoMatch;
            }
            i = i + 1;
        }
        MatcherResult::Match
    }

    fn describe(&self, matcher_result: MatcherResult) -> Description {
        let n = self.components.len();
        if n == 0 {
            let v = match matcher_result {
                MatcherResult::Match => crate::text::chars_of("is anything"),
                MatcherResult::NoMatch => crate::text::chars_of("never matches"),
            };
            return Description::from_chars(v.as_slice());
        }
        if n == 1 {
            return self.components[0].describe(matcher_result);
        }
        let mut texts: Vec<Vec<char>> = Vec::new();
        let ghost mut ds: Seq<Description> = Seq::empty();
        let mut i: usize = 0;
        while i < n
            invariant
                n == self.components@.len(),
                i <= n,
                ds.len() == i,
                texts@.len() == i,
                forall|k: int| 0 <= k < i ==> #[trigger] self.components@[k].describes(matcher_result, ds[k]),
                forall|k: int| 0 <= k < i ==> #[trigger] texts@[k]@ == shown(ds[k]),
            decreases n - i,
        {
            let d = self.components[i].describe(matcher_result);
            let t = d.to_chars();
            proof {
                ds = ds.push(d);
            }
            texts.push(t);
            i = i + 1;
        }
        let ld = Description::from_char_texts(texts.as_slice()).bullet_list().indent();
        assert(texts@.map_values(|t: Vec<char>| t@) =~= shown_all(ds));
        let listing = ld.to_chars();
        let mut v: Vec<char> = Vec::new();
        match matcher_result {
            MatcherResult::Match => push_str(&mut v, "has all the following properties:\n"),
            MatcherResult::NoMatch => push_str(&mut v, "has at least one of the following properties:\n"),
        }
        push_all(&mut v, listing.as_slice());
        assert(is_listed(ld, shown_all(ds), Decoration::Bullet, 2));
        Description::from_chars(v.as_slice())
    }

    fn explain_match(&self, actual: &T) -> Description {
        let n = self.components.len();
        if n == 0 {
            let v = crate::text::chars_of("is anything");
            return which(v.as_slice());
        }
        if n == 1 {
            return self.components[0].explain_match(actual);
        }
        let ghost ms = self.components@;
        let mut texts: Vec<Vec<char>> = Vec::new();
        let ghost mut es: Seq<Description> = Seq::empty();
        let mut i: usize = 0;
        while i < n
            invariant
                n == ms.len(),
                ms == self.components@,
                i <= n,
                es.len() == failing_components(ms, actual, i as int).len(),
                texts@.len() == es.len(),
                forall|k: int| 0 <= k < es.len() ==> #[trigger] ms[failing_components(ms, actual, i as int)[k]].explains(actual, es[k]),
                forall|k: int| 0 <= k < es.len() ==> #[trigger] texts@[k]@ == shown(es[k]),
            decreases n - i,
        {
            let ghost prev = failing_components(ms, actual, i as int);
            if self.components[i].matches(actual).is_no_match() {
                let e = self.components[i].explain_match(actual);
                let t = e.to_chars();
                proof {
                    es = es.push(e);
                }
                texts.push(t);
                assert(failing_components(ms, actual, i + 1) == prev.push(i as int));
            }
            i = i + 1;
        }
        let base = Description::from_char_texts(texts.as_slice());
        assert(texts@.map_values(|t: Vec<char>| t@) =~= shown_all(es));
        if texts.len() == 1 {
            let listing = base.to_chars();
            let d = Description::from_chars(listing.as_slice());
            assert(is_listed(base, shown_all(es), failure_decoration(es.len()), failure_indentation(es.len())));
            d
        } else {
            let ld = base.bullet_list().indent();
            let listing = ld.to_chars();
            let mut v: Vec<char> = Vec::new();
            v.push('\n');
            push_all(&mut v, listing.as_slice());
            assert(is_listed(ld, shown_all(es), failure_decoration(es.len()), failure_indentation(es.len())));
            Description::from_chars(v.as_slice())
        }
    }
}

} // verus!
