//! A matcher for containers equal to an expected container, which explains
//! a mismatch by the elements missing from the actual container and the
//! elements that should not be there.

use vstd::prelude::*;
use core::marker::PhantomData;
use crate::description::{is_text, Description};
use crate::matcher::{
    print_items, printed_items, printed_list, result_of, text_with, which, which_text, Container,
    EqualTo, Matcher, MatcherResult, Printable,
};
use crate::matchers::eq_matcher::eq_text;
use crate::text::push_str;
use crate::matcher_support::hash_set_items::{set_items, set_order, SetElement};
use std::collections::HashSet;

verus! {

/// Matches a container equal to `expected`, element by element.
pub fn container_eq<A, E>(expected: E) -> (m: ContainerEqMatcher<A, E>)
    ensures
        m.expected == expected,
{
    ContainerEqMatcher { expected, phantom: PhantomData }
}

/// Matches a container equal to `expected`, element by element.
pub struct ContainerEqMatcher<A, E> {
    pub expected: E,
    pub phantom: PhantomData<A>,
}

/// `a` and `x` have the same length and equal elements at each index.
pub open spec fn same_elements<Y: EqualTo<X>, X>(a: Seq<Y>, x: Seq<X>) -> bool {
    a.len() == x.len() && forall|i: int| 0 <= i < a.len() ==> #[trigger] a[i].equal_to(&x[i])
}

/// Some element of `a` equals `e`.
pub open spec fn has_equal<Y: EqualTo<X>, X>(a: Seq<Y>, e: X) -> bool {
    exists|i: int| 0 <= i < a.len() && #[trigger] a[i].equal_to(&e)
}

/// `e` equals some element of `x`.
pub open spec fn equals_some<Y: EqualTo<X>, X>(e: Y, x: Seq<X>) -> bool {
    exists|j: int| 0 <= j < x.len() && #[trigger] e.equal_to(&x[j])
}

/// The elements of `x` that no element of `a` equals, in order.
pub open spec fn missing_of<Y: EqualTo<X>, X>(a: Seq<Y>, x: Seq<X>) -> Seq<X>
    decreases x.len(),
{
    if x.len() == 0 {
        Seq::empty()
    } else if has_equal(a, x.last()) {
        missing_of(a, x.drop_last())
    } else {
        missing_of(a, x.drop_last()).push(x.last())
    }
}

/// The elements of `a` that equal no element of `x`, in order.
pub open spec fn unexpected_of<Y: EqualTo<X>, X>(a: Seq<Y>, x: Seq<X>) -> Seq<Y>
    decreases a.len(),
{
    if a.len() == 0 {
        Seq::empty()
    } else if equals_some(a.last(), x) {
        unexpected_of(a.drop_last(), x)
    } else {
        unexpected_of(a.drop_last(), x).push(a.last())
    }
}

/// The explanation of a container comparison from the elements missing
/// from the actual container and the unexpected ones.
pub open spec fn container_explanation<X: Printable, Y: Printable>(missing: Seq<X>, unexpected: Seq<Y>) -> Seq<char> {
    let missing_part = if missing.len() == 1 {
        "which is missing the element "@ + missing[0].printed()
    } else {
        "which is missing the elements "@ + printed_list(missing)
    };
    let unexpected_part = if unexpected.len() == 1 {
        "the unexpected element "@ + unexpected[0].printed()
    } else {
        "the unexpected elements "@ + printed_list(unexpected)
    };
    if missing.len() == 0 && unexpected.len() == 0 {
        "which contains all the elements"@
    } else if missing.len() == 0 {
        "which contains "@ + unexpected_part
    } else if unexpected.len() == 0 {
        missing_part
    } else {
        missing_part + " and contains "@ + unexpected_part
    }
}

/// Whether some element of `a` equals `e`.
pub fn find_equal<Y: EqualTo<X>, X>(a: &[Y], e: &X) -> (r: bool)
    ensures
        r == has_equal(a@, *e),
{
    let mut i: usize = 0;
    while i < a.len()
        invariant
            i <= a@.len(),
            forall|k: int| 0 <= k < i ==> !(#[trigger] a@[k].equal_to(e)),
        decreases a@.len() - i,
    {
        if a[i].is_equal_to(e) {
            return true;
        }
        i = i + 1;
    }
    false
}

/// Whether `e` equals some element of `x`.
pub fn equals_any<Y: EqualTo<X>, X>(e: &Y, x: &[X]) -> (r: bool)
    ensures
        r == equals_some(*e, x@),
{
    let mut j: usize = 0;
    while j < x.len()
        invariant
            j <= x@.len(),
            forall|k: int| 0 <= k < j ==> !(#[trigger] e.equal_to(&x@[k])),
        decreases x@.len() - j,
    {
        if e.is_equal_to(&x[j]) {
            return true;
        }
        j = j + 1;
    }
    false
}

/// Whether the two sequences have equal elements at each index.
pub fn all_equal<Y: EqualTo<X>, X>(a: &[Y], x: &[X]) -> (r: bool)
    ensures
        r == same_elements(a@, x@),
{
    if a.len() != x.len() {
        return false;
    }
    let mut i: usize = 0;
    while i < a.len()
        invariant
            a@.len() == x@.len(),
            i <= a@.len(),
            forall|k: int| 0 <= k < i ==> #[trigger] a@[k].equal_to(&x@[k]),
        decreases a@.len() - i,
    {
        if !a[i].is_equal_to(&x[i]) {
            return false;
        }
        i = i + 1;
    }
    true
}

/// The indices of the elements of `x` that no element of `a` equals.
fn missing_indices<Y: EqualTo<X>, X>(a: &[Y], x: &[X]) -> (r: Vec<usize>)
    ensures
        r@.len() == missing_of(a@, x@).len(),
        forall|k: int| 0 <= k < r@.len() ==> #[trigger] r@[k] < x@.len() && x@[r@[k] as int] == missing_of(a@, x@)[k],
{
    let mut r: Vec<usize> = Vec::new();
    let mut i: usize = 0;
    while i < x.len()
        invariant
            i <= x@.len(),
            r@.len() == missing_of(a@, x@.take(i as int)).len(),
            forall|k: int| 0 <= k < r@.len() ==> #[trigger] r@[k] < i && x@[r@[k] as int] == missing_of(a@, x@.take(i as int))[k],
        decreases x@.len() - i,
    {
        proof {
            let t = x@.take(i + 1);
            assert(t.drop_last() =~= x@.take(i as int));
            assert(t.last() == x@[i as int]);
        }
        if !find_equal(a, &x[i]) {
            r.push(i);
        }
        i = i + 1;
    }
    assert(x@.take(x@.len() as int) =~= x@);
    r
}

/// The indices of the elements of `a` that equal no element of `x`.
fn unexpected_indices<Y: EqualTo<X>, X>(a: &[Y], x: &[X]) -> (r: Vec<usize>)
    ensures
        r@.len() == unexpected_of(a@, x@).len(),
        forall|k: int| 0 <= k < r@.len() ==> #[trigger] r@[k] < a@.len() && a@[r@[k] as int] == unexpected_of(a@, x@)[k],
{
    let mut r: Vec<usize> = Vec::new();
    let mut i: usize = 0;
    while i < a.len()
        invariant
            i <= a@.len(),
            r@.len() == unexpected_of(a@.take(i as int), x@).len(),
            forall|k: int| 0 <= k < r@.len() ==> #[trigger] r@[k] < i && a@[r@[k] as int] == unexpected_of(a@.take(i as int), x@)[k],
        decreases a@.len() - i,
    {
        proof {
            let t = a@.take(i + 1);
            assert(t.drop_last() =~= a@.take(i as int));
            assert(t.last() == a@[i as int]);
        }
        if !equals_any(&a[i], x) {
            r.push(i);
        }
        i = i + 1;
    }
    assert(a@.take(a@.len() as int) =~= a@);
    r
}

/// Appends the printed forms of the elements of `items` at `idx`, as a list.
fn print_selected<T: Printable>(items: &[T], idx: &[usize], sel: Ghost<Seq<T>>, out: &mut Vec<char>)
    requires
        idx@.len() == sel@.len(),
        forall|k: int| 0 <= k < idx@.len() ==> #[trigger] idx@[k] < items@.len() && items@[idx@[k] as int] == sel@[k],
    ensures
        final(out)@ == old(out)@ + printed_list(sel@),
{
    let ghost start = out@;
    out.push('[');
    let mut k: usize = 0;
    while k < idx.len()
        invariant
            k <= idx@.len(),
            idx@.len() == sel@.len(),
            forall|j: int| 0 <= j < idx@.len() ==> #[trigger] idx@[j] < items@.len() && items@[idx@[j] as int] == sel@[j],
            out@ == start + seq!['['] + printed_items(sel@.take(k as int)),
        decreases idx@.len() - k,
    {
        if k > 0 {
            out.push(',');
            out.push(' ');
        }
        let j = idx[k];
        assert(items@[j as int] == sel@[k as int]);
        items[j].print_to(out);
        proof {
            let t = sel@.take(k + 1);
            assert(t.drop_last() =~= sel@.take(k as int));
            assert(t.last() == sel@[k as int]);
            assert(out@ =~= start + seq!['['] + printed_items(t));
        }
        k = k + 1;
    }
    out.push(']');
    assert(sel@.take(sel@.len() as int) =~= sel@);
    assert(out@ =~= start + printed_list(sel@));
}

/// The explanation of comparing `actual` with `expected`: which elements
/// are missing and which are unexpected.
pub fn build_explanation<Y: EqualTo<X> + Printable, X: Printable>(actual: &[Y], expected: &[X]) -> (v: Vec<char>)
    ensures
        v@ == container_explanation(missing_of(actual@, expected@), unexpected_of(actual@, expected@)),
{
    let ghost m = missing_of(actual@, expected@);
    let ghost u = unexpected_of(actual@, expected@);
    let mi = missing_indices(actual, expected);
    let ui = unexpected_indices(actual, expected);
    let mut v: Vec<char> = Vec::new();
    if mi.len() == 0 && ui.len() == 0 {
        push_str(&mut v, "which contains all the elements");
        return v;
    }
    if mi.len() == 1 {
        push_str(&mut v, "which is missing the element ");
        assert(expected@[mi@[0] as int] == m[0]);
        expected[mi[0]].print_to(&mut v);
    } else if mi.len() > 1 {
        push_str(&mut v, "which is missing the elements ");
        print_selected(expected, mi.as_slice(), Ghost(m), &mut v);
    }
    if mi.len() > 0 && ui.len() > 0 {
        push_str(&mut v, " and contains ");
    } else if ui.len() > 0 {
        push_str(&mut v, "which contains ");
    }
    if ui.len() == 1 {
        push_str(&mut v, "the unexpected element ");
        assert(actual@[ui@[0] as int] == u[0]);
        actual[ui[0]].print_to(&mut v);
    } else if ui.len() > 1 {
        push_str(&mut v, "the unexpected elements ");
        print_selected(actual, ui.as_slice(), Ghost(u), &mut v);
    }
    assert(v@ =~= container_explanation(m, u));
    v
}

impl<E: Container<Item = X> + Printable, X: Printable, A: Container<Item = Y>, Y: EqualTo<X> + Printable> Matcher for ContainerEqMatcher<A, E> {
    type ActualT = A;

    open spec fn accepts(&self, actual: &A) -> bool {
        same_elements(actual.elements(), self.expected.elements())
    }

    open spec fn describes(&self, r: MatcherResult, d: Description) -> bool {
        is_text(d, eq_text(self.expected.printed(), r))
    }

    open spec fn explains(&self, actual: &A, d: Description) -> bool {
        is_text(
            d,
            container_explanation(
                missing_of(actual.elements(), self.expected.elements()),
                unexpected_of(actual.elements(), self.expected.elements()),
            ),
        )
    }

    fn matches(&self, actual: &A) -> MatcherResult {
        MatcherResult::from_bool(all_equal(actual.items(), self.expected.items()))
    }

    fn describe(&self, matcher_result: MatcherResult) -> Description {
        let v = match matcher_result {
            MatcherResult::Match => text_with("is equal to ", &self.expected),
            MatcherResult::NoMatch => text_with("isn't equal to ", &self.expected),
        };
        Description::from_chars(v.as_slice())
    }

    fn explain_match(&self, actual: &A) -> Description {
        let v = build_explanation(actual.items(), self.expected.items());
        Description::from_chars(v.as_slice())
    }
}

/// Every element of `x` equals some element of `a`.
pub fn covers<Y: EqualTo<X>, X>(a: &[Y], x: &[X]) -> (r: bool)
    ensures
        r == (forall|j: int| 0 <= j < x@.len() ==> #[trigger] has_equal(a@, x@[j])),
{
    let mut j: usize = 0;
    while j < x.len()
        invariant
            j <= x@.len(),
            forall|k: int| 0 <= k < j ==> #[trigger] has_equal(a@, x@[k]),
        decreases x@.len() - j,
    {
        if !find_equal(a, &x[j]) {
            return false;
        }
        j = j + 1;
    }
    true
}

/// Hash sets are compared as sets: equal when they hold the same elements,
/// whatever order they hand them out in; the explanation lists the missing
/// and the unexpected elements in that order.
impl<T: SetElement> Matcher for ContainerEqMatcher<HashSet<T>, HashSet<T>> {
    type ActualT = HashSet<T>;

    open spec fn accepts(&self, actual: &HashSet<T>) -> bool {
        actual@ == self.expected@
    }

    open spec fn describes(&self, r: MatcherResult, d: Description) -> bool {
        is_text(d, eq_text(self.expected.printed(), r))
    }

    open spec fn explains(&self, actual: &HashSet<T>, d: Description) -> bool {
        is_text(
            d,
            container_explanation(
                missing_of(set_order(actual), set_order(&self.expected)),
                unexpected_of(set_order(actual), set_order(&self.expected)),
            ),
        )
    }

    fn matches(&self, actual: &HashSet<T>) -> MatcherResult {
        let av = set_items(actual);
        let ev = set_items(&self.expected);
        let r = covers(av.as_slice(), ev.as_slice()) && covers(ev.as_slice(), av.as_slice());
        proof {
            T::lemma_set_element();
            let a = av@;
            let e = ev@;
            assert forall|j: int| 0 <= j < e.len() implies #[trigger] has_equal(a, e[j]) <==> a.contains(e[j]) by {
                if has_equal(a, e[j]) {
                    let i = choose|i: int| 0 <= i < a.len() && #[trigger] a[i].equal_to(&e[j]);
                    assert(a[i] == e[j]);
                }
                if a.contains(e[j]) {
                    let i = choose|i: int| 0 <= i < a.len() && a[i] == e[j];
                    assert(a[i].equal_to(&e[j]));
                }
            }
            assert forall|j: int| 0 <= j < a.len() implies #[trigger] has_equal(e, a[j]) <==> e.contains(a[j]) by {
                if has_equal(e, a[j]) {
                    let i = choose|i: int| 0 <= i < e.len() && #[trigger] e[i].equal_to(&a[j]);
                    assert(e[i] == a[j]);
                }
                if e.contains(a[j]) {
                    let i = choose|i: int| 0 <= i < e.len() && e[i] == a[j];
                    assert(e[i].equal_to(&a[j]));
                }
            }
            if r {
                assert forall|t: T| actual@.contains(t) <==> self.expected@.contains(t) by {
                    if a.contains(t) {
                        let j = choose|j: int| 0 <= j < a.len() && a[j] == t;
                        assert(has_equal(e, a[j]));
                    }
                    if e.contains(t) {
                        let j = choose|j: int| 0 <= j < e.len() && e[j] == t;
                        assert(has_equal(a, e[j]));
                    }
                }
                assert(actual@ =~= self.expected@);
            } else if actual@ == self.expected@ {
                assert(a.to_set() == e.to_set());
                assert forall|j: int| 0 <= j < e.len() implies #[trigger] has_equal(a, e[j]) by {
                    assert(e.to_set().contains(e[j]));
                    assert(a.to_set().contains(e[j]));
                }
                assert forall|j: int| 0 <= j < a.len() implies #[trigger] has_equal(e, a[j]) by {
                    assert(a.to_set().contains(a[j]));
                    assert(e.to_set().contains(a[j]));
                }
            }
        }
        MatcherResult::from_bool(r)
    }

    fn describe(&self, matcher_result: MatcherResult) -> Description {
        let v = match matcher_result {
            MatcherResult::Match => text_with("is equal to ", &self.expected),
            MatcherResult::NoMatch => text_with("isn't equal to ", &self.expected),
        };
        Description::from_chars(v.as_slice())
    }

    fn explain_match(&self, actual: &HashSet<T>) -> Description {
        let av = set_items(actual);
        let ev = set_items(&self.expected);
        let v = build_explanation(av.as_slice(), ev.as_slice());
        Description::from_chars(v.as_slice())
    }
}

} // verus!
