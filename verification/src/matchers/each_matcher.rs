//! A matcher for containers all of whose elements an inner matcher matches.

use vstd::prelude::*;
use core::marker::PhantomData;
use crate::description::{is_text, shown, Description};
use crate::matcher::{join2, Container, Matcher, MatcherResult, Printable};
use crate::matcher_support::match_matrix::index_list;
use crate::text::{decimal, push_all, push_decimal, push_str};

verus! {

/// Matches a container all of whose elements `inner` matches.
pub fn each<C, M>(inner: M) -> (m: EachMatcher<C, M>)
    ensures
        m.inner == inner,
{
    EachMatcher { inner, phantom: PhantomData }
}

/// Matches a container all of whose elements `inner` matches.
pub struct EachMatcher<C, M> {
    pub inner: M,
    pub phantom: PhantomData<C>,
}

/// The indices below `n` of the elements of `items` that `m` does not match.
pub open spec fn failing<T, M: Matcher<ActualT = T>>(m: M, items: Seq<T>, n: int) -> Seq<int>
    decreases n,
{
    if n <= 0 {
        Seq::empty()
    } else if m.accepts(&items[n - 1]) {
        failing(m, items, n - 1)
    } else {
        failing(m, items, n - 1).push(n - 1)
    }
}

/// Lines joined with line breaks.
pub open spec fn joined(lines: Seq<Seq<char>>) -> Seq<char>
    decreases lines.len(),
{
    if lines.len() == 0 {
        Seq::empty()
    } else if lines.len() == 1 {
        lines[0]
    } else {
        joined(lines.drop_last()) + seq!['\n'] + lines.last()
    }
}

/// The line for a failing element: its printed form and its explanation.
pub open spec fn failing_line(item: Seq<char>, e: Seq<char>) -> Seq<char> {
    item + ", "@ + e
}

/// The lines for the failing elements `bad` of `items`, explained by `es`.
pub open spec fn failing_lines<T: Printable>(bad: Seq<int>, items: Seq<T>, es: Seq<Description>) -> Seq<Seq<char>> {
    Seq::new(bad.len(), |k: int| failing_line(items[bad[k]].printed(), shown(es[k])))
}

/// The explanation of [`each`] when some elements fail.
pub open spec fn each_failure_text<T: Printable>(bad: Seq<int>, items: Seq<T>, es: Seq<Description>) -> Seq<char> {
    if bad.len() == 1 {
        "whose element #"@ + decimal(bad[0] as nat) + " is "@ + items[bad[0]].printed() + ", "@ + shown(es[0])
    } else {
        "whose elements "@ + index_list(bad) + " don't match\n"@ + joined(failing_lines(bad, items, es))
    }
}

impl<C: Container<Item = T>, T: Printable, M: Matcher<ActualT = T>> Matcher for EachMatcher<C, M> {
    type ActualT = C;

    open spec fn accepts(&self, actual: &C) -> bool {
        forall|i: int| 0 <= i < actual.elements().len() ==> #[trigger] self.inner.accepts(&actual.elements()[i])
    }

    open spec fn describes(&self, r: MatcherResult, d: Description) -> bool {
        exists|d1: Description|
            #[trigger] self.inner.describes(MatcherResult::Match, d1) && is_text(
                d,
                (match r {
                    MatcherResult::Match => "only contains elements that "@,
                    MatcherResult::NoMatch => "contains no element that "@,
                }) + shown(d1),
            )
    }

    open spec fn explains(&self, actual: &C, d: Description) -> bool {
        let items = actual.elements();
        let bad = failing(self.inner, items, items.len() as int);
        if bad.len() == 0 {
            exists|d1: Description|
                #[trigger] self.inner.describes(MatcherResult::Match, d1) && is_text(d, "whose each element "@ + shown(d1))
        } else {
            exists|es: Seq<Description>|
                #![trigger each_failure_text(bad, items, es)]
                es.len() == bad.len()
                && (forall|k: int| 0 <= k < bad.len() ==> #[trigger] self.inner.explains(&items[bad[k]], es[k]))
                && is_text(d, each_failure_text(bad, items, es))
        }
    }

    fn matches(&self, actual: &C) -> MatcherResult {
        let items = actual.items();
        let mut i: usize = 0;
        while i < items.len()
            invariant
                items@ == actual.elements(),
                i <= items@.len(),
                forall|k: int| 0 <= k < i ==> #[trigger] self.inner.accepts(&items@[k]),
            decreases items@.len() - i,
        {
            if self.inner.matches(&items[i]).is_no_match() {
                return MatcherResult::NoMatch;
            }
            i = i + 1;
        }
        MatcherResult::Match
    }

    fn describe(&self, matcher_result: MatcherResult) -> Description {
        let d1 = self.inner.describe(MatcherResult::Match);
        let t1 = d1.to_chars();
        let v = match matcher_result {
            MatcherResult::Match => join2("only contains elements that ", t1.as_slice()),
            MatcherResult::NoMatch => join2("contains no element that ", t1.as_slice()),
        };
        assert(self.inner.describes(MatcherResult::Match, d1));
        Description::from_chars(v.as_slice())
    }

    fn explain_match(&self, actual: &C) -> Description {
        let items = actual.items();
        let ghost its = items@;
        let mut bad: Vec<usize> = Vec::new();
        let mut texts: Vec<Vec<char>> = Vec::new();
        let ghost mut es: Seq<Description> = Seq::empty();
        let mut i: usize = 0;
        while i < items.len()
            invariant
                items@ == actual.elements(),
                its == items@,
                i <= its.len(),
                bad@.len() == failing(self.inner, its, i as int).len(),
                forall|k: int| 0 <= k < bad@.len() ==> #[trigger] bad@[k] as int == failing(self.inner, its, i as int)[k],
                forall|k: int| 0 <= k < bad@.len() ==> 0 <= #[trigger] failing(self.inner, its, i as int)[k] < i,
                es.len() == bad@.len(),
                texts@.len() == bad@.len(),
                forall|k: int| 0 <= k < bad@.len() ==> #[trigger] self.inner.explains(&its[failing(self.inner, its, i as int)[k]], es[k]),
                forall|k: int| 0 <= k < bad@.len() ==> #[trigger] texts@[k]@ == shown(es[k]),
            decreases its.len() - i,
        {
            let ghost prev = failing(self.inner, its, i as int);
            if self.inner.matches(&items[i]).is_no_match() {
                let e = self.inner.explain_match(&items[i]);
                let t = e.to_chars();
                proof {
                    es = es.push(e);
                }
                bad.push(i);
                texts.push(t);
                assert(failing(self.inner, its, i + 1) == prev.push(i as int));
            }
            i = i + 1;
        }
        let ghost fb = failing(self.inner, its, its.len() as int);
        if bad.len() == 0 {
            let d1 = self.inner.describe(MatcherResult::Match);
            let t1 = d1.to_chars();
            let v = join2("whose each element ", t1.as_slice());
            assert(self.inner.describes(MatcherResult::Match, d1));
            return Description::from_chars(v.as_slice());
        }
        let mut v: Vec<char> = Vec::new();
        if bad.len() == 1 {
            push_str(&mut v, "whose element #");
            push_decimal(&mut v, bad[0]);
            push_str(&mut v, " is ");
            items[bad[0]].print_to(&mut v);
            push_str(&mut v, ", ");
            push_all(&mut v, texts[0].as_slice());
            assert(v@ =~= each_failure_text(fb, its, es));
        } else {
            push_str(&mut v, "whose elements ");
            let ghost start = v@;
            let mut k: usize = 0;
            while k < bad.len()
                invariant
                    bad@.len() == fb.len(),
                    forall|l: int| 0 <= l < bad@.len() ==> #[trigger] bad@[l] as int == fb[l],
                    k <= bad@.len(),
                    v@ == start + index_list(fb.take(k as int)),
                decreases bad@.len() - k,
            {
                if k > 0 {
                    v.push(',');
                    v.push(' ');
                }
                v.push('#');
                push_decimal(&mut v, bad[k]);
                proof {
                    let t = fb.take(k + 1);
                    assert(t.drop_last() =~= fb.take(k as int));
                    assert(t.last() == fb[k as int]);
                    assert(v@ =~= start + index_list(t));
                }
                k = k + 1;
            }
            push_str(&mut v, " don't match\n");
            let ghost start2 = v@;
            let ghost lines = failing_lines(fb, its, es);
            let mut k: usize = 0;
            while k < bad.len()
                invariant
                    items@ == its,
                    bad@.len() == fb.len(),
                    fb.len() > 1,
                    forall|l: int| 0 <= l < bad@.len() ==> #[trigger] bad@[l] as int == fb[l],
                    forall|l: int| 0 <= l < bad@.len() ==> 0 <= #[trigger] fb[l] < its.len(),
                    texts@.len() == bad@.len(),
                    es.len() == bad@.len(),
                    forall|l: int| 0 <= l < bad@.len() ==> #[trigger] texts@[l]@ == shown(es[l]),
                    lines == failing_lines(fb, its, es),
                    k <= bad@.len(),
                    v@ == start2 + joined(lines.take(k as int)),
                decreases bad@.len() - k,
            {
                if k > 0 {
                    v.push('\n');
                }
                items[bad[k]].print_to(&mut v);
                push_str(&mut v, ", ");
                push_all(&mut v, texts[k].as_slice());
                proof {
                    let t = lines.take(k + 1);
                    assert(t.drop_last() =~= lines.take(k as int));
                    assert(t.last() == lines[k as int]);
                    assert(v@ =~= start2 + joined(t));
                }
                k = k + 1;
            }
            assert(fb.take(fb.len() as int) =~= fb);
            assert(lines.take(lines.len() as int) =~= lines);
            assert(v@ =~= each_failure_text(fb, its, es));
        }
        Description::from_chars(v.as_slice())
    }
}

} // verus!
