//! A matcher for containers whose elements, in order, match a list of
//! matchers.

use vstd::prelude::*;
use core::marker::PhantomData;
use crate::description::{is_listed, is_text, shown, Description};
use crate::internal::description_renderer::Decoration;
use crate::matcher::{Container, ElementwiseMatcher, Matcher, MatcherResult, Printable};
use crate::text::{decimal, push_all, push_decimal, push_str};

verus! {

/// Matches a container whose elements, in order, the matchers `elements`
/// match one by one.
pub struct ElementsAre<C, M> {
    pub elements: Vec<M>,
    pub phantom: PhantomData<C>,
}

impl<C, M> ElementsAre<C, M> {
    /// Matches a container whose elements, in order, `elements` match.
    pub fn new(elements: Vec<M>) -> (m: ElementsAre<C, M>)
        ensures
            m.elements@ == elements@,
    {
        ElementsAre { elements, phantom: PhantomData }
    }
}

/// Each matcher of `ms` matches the element of `items` at the same index,
/// and there are as many matchers as elements.
pub open spec fn all_match<T, M: Matcher<ActualT = T>>(ms: Seq<M>, items: Seq<T>) -> bool {
    ms.len() == items.len() && forall|i: int| 0 <= i < ms.len() ==> #[trigger] ms[i].accepts(&items[i])
}

/// The indices below `n` at which the matcher of `ms` does not match the
/// element of `items`.
pub open spec fn mismatches<T, M: Matcher<ActualT = T>>(ms: Seq<M>, items: Seq<T>, n: int) -> Seq<int>
    decreases n,
{
    if n <= 0 {
        Seq::empty()
    } else if ms[n - 1].accepts(&items[n - 1]) {
        mismatches(ms, items, n - 1)
    } else {
        mismatches(ms, items, n - 1).push(n - 1)
    }
}

/// The smaller of two lengths.
pub open spec fn min_len(a: nat, b: nat) -> int {
    if a < b {
        a as int
    } else {
        b as int
    }
}

/// The line that explains the mismatch of the element `item` at `index`,
/// given the explanation `e` of its matcher.
pub open spec fn mismatch_line(index: int, item: Seq<char>, e: Seq<char>) -> Seq<char> {
    "element #"@ + decimal(index as nat) + " is "@ + item + ", "@ + e
}

/// The rendered texts of `ds`.
pub open spec fn shown_all(ds: Seq<Description>) -> Seq<Seq<char>> {
    ds.map_values(|x: Description| shown(x))
}

/// The mismatch lines for the elements of `items` at `bad`, whose matchers
/// explained themselves with `es`.
pub open spec fn mismatch_lines<T: Printable>(bad: Seq<int>, items: Seq<T>, es: Seq<Description>) -> Seq<Seq<char>> {
    Seq::new(bad.len(), |k: int| mismatch_line(bad[k], items[bad[k]].printed(), shown(es[k])))
}

/// How the mismatch lines are listed: as an indented bullet list when
/// there are several.
pub open spec fn listing_decoration(n: nat) -> Decoration {
    if n > 1 {
        Decoration::Bullet
    } else {
        Decoration::Undecorated
    }
}

/// The indentation of the mismatch lines.
pub open spec fn listing_indentation(n: nat) -> nat {
    if n > 1 {
        2
    } else {
        0
    }
}

/// The header of the description of [`ElementsAre`].
pub open spec fn elements_header(r: MatcherResult) -> Seq<char> {
    match r {
        MatcherResult::Match => "has elements:\n"@,
        MatcherResult::NoMatch => "doesn't have elements:\n"@,
    }
}

/// The explanation of [`ElementsAre`] when the mismatch lines are `lines`,
/// rendered in `listing` when there is more than one, and the actual
/// container has `size` elements.
pub open spec fn elements_explanation(lines: Seq<Seq<char>>, listing: Seq<char>, same_size: bool, size: nat) -> Seq<char> {
    if lines.len() == 0 {
        if same_size {
            "whose elements all match"@
        } else {
            "whose size is "@ + decimal(size)
        }
    } else if lines.len() == 1 {
        "where "@ + listing
    } else {
        "where:\n"@ + listing
    }
}

impl<C: Container<Item = T>, T: Printable, M: Matcher<ActualT = T>> Matcher for ElementsAre<C, M> {
    type ActualT = C;

    open spec fn accepts(&self, actual: &C) -> bool {
        all_match(self.elements@, actual.elements())
    }

    open spec fn describes(&self, r: MatcherResult, d: Description) -> bool {
        exists|ds: Seq<Description>, ld: Description|
            #![trigger is_listed(ld, shown_all(ds), Decoration::Enumerate, 2)]
            ds.len() == self.elements@.len()
            && (forall|i: int| 0 <= i < ds.len() ==> #[trigger] self.elements@[i].describes(MatcherResult::Match, ds[i]))
            && is_listed(ld, shown_all(ds), Decoration::Enumerate, 2)
            && is_text(d, elements_header(r) + shown(ld))
    }

    open spec fn explains(&self, actual: &C, d: Description) -> bool {
        let ms = self.elements@;
        let items = actual.elements();
        let bad = mismatches(ms, items, min_len(ms.len(), items.len()));
        exists|es: Seq<Description>, ld: Description|
            #![trigger is_listed(ld, mismatch_lines(bad, items, es), listing_decoration(bad.len()), listing_indentation(bad.len()))]
            es.len() == bad.len()
            && (forall|k: int| 0 <= k < bad.len() ==> #[trigger] ms[bad[k]].explains(&items[bad[k]], es[k]))
            && is_listed(ld, mismatch_lines(bad, items, es), listing_decoration(bad.len()), listing_indentation(bad.len()))
            && is_text(d, elements_explanation(
                mismatch_lines(bad, items, es),
                shown(ld),
                ms.len() == items.len(),
                items.len(),
            ))
    }

    fn matches(&self, actual: &C) -> MatcherResult {
        let items = actual.items();
        if items.len() != self.elements.len() {
            return MatcherResult::NoMatch;
        }
        let mut i: usize = 0;
        while i < items.len()
            invariant
                items@ == actual.elements(),
                items@.len() == self.elements@.len(),
                i <= items@.len(),
                forall|j: int| 0 <= j < i ==> #[trigger] self.elements@[j].accepts(&items@[j]),
            decreases items@.len() - i,
        {
            if self.elements[i].matches(&items[i]).is_no_match() {
                return MatcherResult::NoMatch;
            }
            i = i + 1;
        }
        MatcherResult::Match
    }

    fn describe(&self, matcher_result: MatcherResult) -> Description {
        let mut texts: Vec<Vec<char>> = Vec::new();
        let ghost mut ds: Seq<Description> = Seq::empty();
        let mut i: usize = 0;
        while i < self.elements.len()
            invariant
                i <= self.elements@.len(),
                ds.len() == i,
                texts@.len() == i,
                forall|j: int| 0 <= j < i ==> #[trigger] self.elements@[j].describes(MatcherResult::Match, ds[j]),
                forall|j: int| 0 <= j < i ==> #[trigger] texts@[j]@ == shown(ds[j]),
            decreases self.elements@.len() - i,
        {
            let d = self.elements[i].describe(MatcherResult::Match);
            let t = d.to_chars();
            proof {
                ds = ds.push(d);
            }
            texts.push(t);
            i = i + 1;
        }
        let ld = Description::from_char_texts(texts.as_slice()).enumerate().indent();
        proof {
            assert(texts@.map_values(|t: Vec<char>| t@) =~= shown_all(ds));
        }
        let shown_list = ld.to_chars();
        let mut v: Vec<char> = Vec::new();
        match matcher_result {
            MatcherResult::Match => push_str(&mut v, "has elements:\n"),
            MatcherResult::NoMatch => push_str(&mut v, "doesn't have elements:\n"),
        }
        push_all(&mut v, shown_list.as_slice());
        let d = Description::from_chars(v.as_slice());
        assert(is_listed(ld, shown_all(ds), Decoration::Enumerate, 2));
        d
    }

    fn explain_match(&self, actual: &C) -> Description {
        let items = actual.items();
        let ghost ms = self.elements@;
        let ghost its = items@;
        let n = if items.len() < self.elements.len() {
            items.len()
        } else {
            self.elements.len()
        };
        let mut texts: Vec<Vec<char>> = Vec::new();
        let ghost mut es: Seq<Description> = Seq::empty();
        let ghost mut bad: Seq<int> = Seq::empty();
        let mut i: usize = 0;
        while i < n
            invariant
                items@ == actual.elements(),
                ms == self.elements@,
                its == items@,
                n == min_len(ms.len(), its.len()),
                i <= n,
                bad == mismatches(ms, its, i as int),
                es.len() == bad.len(),
                texts@.len() == bad.len(),
                forall|k: int| 0 <= k < bad.len() ==> 0 <= #[trigger] bad[k] < i,
                forall|k: int| 0 <= k < bad.len() ==> #[trigger] ms[bad[k]].explains(&its[bad[k]], es[k]),
                forall|k: int| 0 <= k < bad.len() ==> #[trigger] texts@[k]@ == mismatch_line(bad[k], its[bad[k]].printed(), shown(es[k])),
            decreases n - i,
        {
            if self.elements[i].matches(&items[i]).is_no_match() {
                let e = self.elements[i].explain_match(&items[i]);
                let et = e.to_chars();
                let mut line: Vec<char> = Vec::new();
                push_str(&mut line, "element #");
                push_decimal(&mut line, i);
                push_str(&mut line, " is ");
                items[i].print_to(&mut line);
                push_str(&mut line, ", ");
                push_all(&mut line, et.as_slice());
                proof {
                    es = es.push(e);
                    bad = bad.push(i as int);
                }
                texts.push(line);
            }
            i = i + 1;
        }
        let ghost lines = mismatch_lines(bad, its, es);
        proof {
            assert(texts@.map_values(|t: Vec<char>| t@) =~= lines);
        }
        let base = Description::from_char_texts(texts.as_slice());
        let ld = if texts.len() > 1 {
            base.bullet_list().indent()
        } else {
            base
        };
        let mut v: Vec<char> = Vec::new();
        if texts.len() == 0 {
            if items.len() == self.elements.len() {
                push_str(&mut v, "whose elements all match");
            } else {
                push_str(&mut v, "whose size is ");
                push_decimal(&mut v, items.len());
            }
        } else {
            let shown_list = ld.to_chars();
            if texts.len() == 1 {
                push_str(&mut v, "where ");
            } else {
                push_str(&mut v, "where:\n");
            }
            push_all(&mut v, shown_list.as_slice());
        }
        let d = Description::from_chars(v.as_slice());
        assert(is_listed(ld, lines, listing_decoration(bad.len()), listing_indentation(bad.len())));
        d
    }
}

impl<T: Printable, M: Matcher<ActualT = T>> ElementwiseMatcher<T> for ElementsAre<Vec<T>, M> {
    proof fn lemma_elementwise(&self, a: &Vec<T>, b: &Vec<T>) {
    }
}

} // verus!
