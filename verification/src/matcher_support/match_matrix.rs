//! Matching the elements of a container against a list of matchers when
//! order does not matter: which element each matcher matches, the elements
//! and matchers that nothing matches, and a best matching between the two,
//! found by augmenting paths (Ford-Fulkerson).

use vstd::prelude::*;
use crate::description::{is_listed, is_text, shown, Description};
use crate::internal::description_renderer::Decoration;
use crate::matcher::{Matcher, MatcherResult, Printable};
use crate::text::push_all;
use crate::text::{decimal, push_decimal, push_str};

verus! {

/// How the elements of a container must correspond to the matchers.
#[derive(Clone, Copy, PartialEq, Eq, Structural)]
pub enum Requirements {
    /// Each element matches a matcher and each matcher an element, one to
    /// one.
    PerfectMatch,
    /// Each matcher matches its own element.
    Superset,
    /// Each element matches its own matcher.
    Subset,
}

/// The name of a requirement.
pub open spec fn requirements_name(r: Requirements) -> Seq<char> {
    match r {
        Requirements::PerfectMatch => "perfect"@,
        Requirements::Superset => "superset"@,
        Requirements::Subset => "subset"@,
    }
}

/// What a size mismatch says, if the sizes violate the requirement.
pub open spec fn size_mismatch_text(r: Requirements, actual_size: nat, expected_size: nat) -> Option<Seq<char>> {
    match r {
        Requirements::PerfectMatch => if actual_size != expected_size {
            Some("which has size "@ + decimal(actual_size) + " (expected "@ + decimal(expected_size) + ")"@)
        } else {
            None
        },
        Requirements::Superset => if actual_size < expected_size {
            Some("which has size "@ + decimal(actual_size) + " (expected at least "@ + decimal(expected_size) + ")"@)
        } else {
            None
        },
        Requirements::Subset => if actual_size > expected_size {
            Some("which has size "@ + decimal(actual_size) + " (expected at most "@ + decimal(expected_size) + ")"@)
        } else {
            None
        },
    }
}

impl Requirements {
    /// The name of the requirement: `perfect`, `superset` or `subset`.
    pub fn name(&self) -> (s: &'static str)
        ensures
            s@ == requirements_name(*self),
    {
        match self {
            Requirements::PerfectMatch => "perfect",
            Requirements::Superset => "superset",
            Requirements::Subset => "subset",
        }
    }

    /// Explains why a container of `actual_size` elements cannot meet the
    /// requirement against `expected_size` matchers, if it cannot.
    pub fn explain_size_mismatch(&self, actual_size: usize, expected_size: usize) -> (d: Option<Description>)
        ensures
            size_mismatch_text(*self, actual_size as nat, expected_size as nat) is None <==> d is None,
            d matches Some(x) ==> is_text(x, size_mismatch_text(*self, actual_size as nat, expected_size as nat).unwrap()),
    {
        let (mismatch, middle) = match self {
            Requirements::PerfectMatch => (actual_size != expected_size, " (expected "),
            Requirements::Superset => (actual_size < expected_size, " (expected at least "),
            Requirements::Subset => (actual_size > expected_size, " (expected at most "),
        };
        if !mismatch {
            return None;
        }
        let mut v: Vec<char> = Vec::new();
        push_str(&mut v, "which has size ");
        push_decimal(&mut v, actual_size);
        push_str(&mut v, middle);
        push_decimal(&mut v, expected_size);
        v.push(')');
        proof {
            reveal_strlit(")");
            assert(v@ =~= size_mismatch_text(*self, actual_size as nat, expected_size as nat).unwrap());
        }
        Some(Description::from_chars(v.as_slice()))
    }
}

/// Which element (row) each matcher (column) matches.
pub struct MatchMatrix {
    pub rows: Vec<Vec<bool>>,
    pub columns: usize,
}

impl MatchMatrix {
    /// Every row has one entry per column.
    pub open spec fn wf(&self) -> bool {
        forall|i: int| 0 <= i < self.rows@.len() ==> (#[trigger] self.rows@[i])@.len() == self.columns
    }

    /// Whether the element `i` matches the matcher `j`.
    pub open spec fn edge(&self, i: int, j: int) -> bool {
        self.rows@[i]@[j]
    }

    /// The number of elements.
    pub open spec fn height(&self) -> nat {
        self.rows@.len()
    }

    /// Matcher `j` matches some element.
    pub open spec fn column_has_edge(&self, j: int) -> bool {
        exists|i: int| 0 <= i < self.height() && self.edge(i, j)
    }

    /// The matrix of which of `actual` each of `expected` matches.
    pub fn generate<T, M: Matcher<ActualT = T>>(actual: &[T], expected: &[M]) -> (m: MatchMatrix)
        ensures
            m.wf(),
            m.height() == actual@.len(),
            m.columns == expected@.len(),
            forall|i: int, j: int|
                0 <= i < actual@.len() && 0 <= j < expected@.len() ==> (m.edge(i, j) <==> #[trigger] expected@[j].accepts(&actual@[i])),
    {
        let mut rows: Vec<Vec<bool>> = Vec::new();
        let mut i: usize = 0;
        while i < actual.len()
            invariant
                i <= actual@.len(),
                rows@.len() == i,
                forall|k: int| 0 <= k < i ==> (#[trigger] rows@[k])@.len() == expected@.len(),
                forall|k: int, j: int|
                    0 <= k < i && 0 <= j < expected@.len() ==> (rows@[k]@[j] <==> #[trigger] expected@[j].accepts(&actual@[k])),
            decreases actual@.len() - i,
        {
            let mut row: Vec<bool> = Vec::new();
            let mut j: usize = 0;
            while j < expected.len()
                invariant
                    i < actual@.len(),
                    j <= expected@.len(),
                    row@.len() == j,
                    forall|l: int| 0 <= l < j ==> (row@[l] <==> #[trigger] expected@[l].accepts(&actual@[i as int])),
                decreases expected@.len() - j,
            {
                row.push(expected[j].matches(&actual[i]).is_match());
                j = j + 1;
            }
            rows.push(row);
            i = i + 1;
        }
        MatchMatrix { rows, columns: expected.len() }
    }

    /// Whether element `i` matches no matcher.
    fn row_empty(&self, i: usize) -> (b: bool)
        requires
            self.wf(),
            i < self.height(),
        ensures
            b == (forall|j: int| 0 <= j < self.columns ==> !self.edge(i as int, j)),
    {
        let row = &self.rows[i];
        let mut j: usize = 0;
        while j < self.columns
            invariant
                self.wf(),
                i < self.height(),
                row@ == self.rows@[i as int]@,
                j <= self.columns,
                forall|l: int| 0 <= l < j ==> !self.edge(i as int, l),
            decreases self.columns - j,
        {
            if row[j] {
                assert(self.edge(i as int, j as int));
                return false;
            }
            j = j + 1;
        }
        true
    }

    /// Whether matcher `j` matches no element.
    fn column_empty(&self, j: usize) -> (b: bool)
        requires
            self.wf(),
            j < self.columns,
        ensures
            b == (forall|i: int| 0 <= i < self.height() ==> !self.edge(i, j as int)),
    {
        let mut i: usize = 0;
        while i < self.rows.len()
            invariant
                self.wf(),
                j < self.columns,
                i <= self.height(),
                forall|l: int| 0 <= l < i ==> !self.edge(l, j as int),
            decreases self.height() - i,
        {
            if self.rows[i][j] {
                assert(self.edge(i as int, j as int));
                return false;
            }
            i = i + 1;
        }
        true
    }

    /// For each element whether it matches no matcher (when `rows`), and
    /// for each matcher whether it matches no element (when `columns`).
    fn find_unmatchable(&self, rows: bool, columns: bool) -> (u: UnmatchableElements)
        requires
            self.wf(),
        ensures
            u.unmatchable_actual@.len() == (if rows { self.height() } else { 0 }),
            u.unmatchable_expected@.len() == (if columns { self.columns as nat } else { 0 }),
            forall|i: int| 0 <= i < u.unmatchable_actual@.len() ==> (#[trigger] u.unmatchable_actual@[i] <==> forall|j: int| 0 <= j < self.columns ==> !self.edge(i, j)),
            forall|j: int| 0 <= j < u.unmatchable_expected@.len() ==> (#[trigger] u.unmatchable_expected@[j] <==> forall|i: int| 0 <= i < self.height() ==> !self.edge(i, j)),
    {
        let mut unmatchable_actual: Vec<bool> = Vec::new();
        if rows {
            let mut i: usize = 0;
            while i < self.rows.len()
                invariant
                    self.wf(),
                    i <= self.height(),
                    unmatchable_actual@.len() == i,
                    forall|k: int| 0 <= k < i ==> (#[trigger] unmatchable_actual@[k] <==> forall|j: int| 0 <= j < self.columns ==> !self.edge(k, j)),
                decreases self.height() - i,
            {
                unmatchable_actual.push(self.row_empty(i));
                i = i + 1;
            }
        }
        let mut unmatchable_expected: Vec<bool> = Vec::new();
        if columns {
            let mut j: usize = 0;
            while j < self.columns
                invariant
                    self.wf(),
                    j <= self.columns,
                    unmatchable_expected@.len() == j,
                    forall|k: int| 0 <= k < j ==> (#[trigger] unmatchable_expected@[k] <==> forall|i: int| 0 <= i < self.height() ==> !self.edge(i, k)),
                decreases self.columns - j,
            {
                unmatchable_expected.push(self.column_empty(j));
                j = j + 1;
            }
        }
        UnmatchableElements { unmatchable_actual, unmatchable_expected }
    }

    /// The elements that match no matcher and the matchers that match no
    /// element.
    pub fn find_unmatchable_elements(&self) -> (u: UnmatchableElements)
        requires
            self.wf(),
        ensures
            u.marks(*self, true, true),
    {
        self.find_unmatchable(true, true)
    }

    /// The matchers that match no element.
    pub fn find_unmatched_expected(&self) -> (u: UnmatchableElements)
        requires
            self.wf(),
        ensures
            u.marks(*self, false, true),
    {
        self.find_unmatchable(false, true)
    }

    /// The elements that match no matcher.
    pub fn find_unmatched_actual(&self) -> (u: UnmatchableElements)
        requires
            self.wf(),
        ensures
            u.marks(*self, true, false),
    {
        self.find_unmatchable(true, false)
    }
}

/// Marks of the elements that match no matcher and of the matchers that
/// match no element.
pub struct UnmatchableElements {
    pub unmatchable_actual: Vec<bool>,
    pub unmatchable_expected: Vec<bool>,
}

impl UnmatchableElements {
    /// The marks are those of `m`, for the elements when `rows` and for the
    /// matchers when `columns` (the others are not marked).
    pub open spec fn marks(&self, m: MatchMatrix, rows: bool, columns: bool) -> bool {
        &&& self.unmatchable_actual@.len() == (if rows { m.height() } else { 0 })
        &&& self.unmatchable_expected@.len() == (if columns { m.columns as nat } else { 0 })
        &&& forall|i: int| 0 <= i < self.unmatchable_actual@.len() ==> (#[trigger] self.unmatchable_actual@[i] <==> forall|j: int| 0 <= j < m.columns ==> !m.edge(i, j))
        &&& forall|j: int| 0 <= j < self.unmatchable_expected@.len() ==> (#[trigger] self.unmatchable_expected@[j] <==> forall|i: int| 0 <= i < m.height() ==> !m.edge(i, j))
    }

    /// Whether anything is marked.
    pub open spec fn any_marked(&self) -> bool {
        (exists|i: int| 0 <= i < self.unmatchable_actual@.len() && #[trigger] self.unmatchable_actual@[i])
            || (exists|j: int| 0 <= j < self.unmatchable_expected@.len() && #[trigger] self.unmatchable_expected@[j])
    }

    /// Whether anything is marked.
    pub fn has_unmatchable_elements(&self) -> (b: bool)
        ensures
            b == self.any_marked(),
    {
        any_true(self.unmatchable_actual.as_slice()) || any_true(self.unmatchable_expected.as_slice())
    }
}

/// Whether some entry of `v` is `true`.
fn any_true(v: &[bool]) -> (b: bool)
    ensures
        b == exists|i: int| 0 <= i < v@.len() && #[trigger] v@[i],
{
    let mut i: usize = 0;
    while i < v.len()
        invariant
            i <= v@.len(),
            forall|k: int| 0 <= k < i ==> !v@[k],
        decreases v@.len() - i,
    {
        if v[i] {
            return true;
        }
        i = i + 1;
    }
    false
}

/// The number of `false` entries.
pub open spec fn count_false(s: Seq<bool>) -> nat
    decreases s.len(),
{
    if s.len() == 0 {
        0
    } else {
        count_false(s.drop_last()) + if s.last() {
            0nat
        } else {
            1nat
        }
    }
}

/// `t` marks at least what `s` marks.
pub open spec fn covers(t: Seq<bool>, s: Seq<bool>) -> bool {
    t.len() == s.len() && forall|j: int| 0 <= j < s.len() && #[trigger] s[j] ==> t[j]
}

proof fn lemma_count_covers(t: Seq<bool>, s: Seq<bool>)
    requires
        covers(t, s),
    ensures
        count_false(t) <= count_false(s),
    decreases s.len(),
{
    if s.len() > 0 {
        assert(covers(t.drop_last(), s.drop_last())) by {
            assert forall|j: int| 0 <= j < s.drop_last().len() && #[trigger] s.drop_last()[j] implies t.drop_last()[j] by {
                assert(s[j]);
            }
        }
        lemma_count_covers(t.drop_last(), s.drop_last());
        if s.last() {
            assert(s[s.len() - 1]);
        }
    }
}

proof fn lemma_count_mark(s: Seq<bool>, j: int)
    requires
        0 <= j < s.len(),
        !s[j],
    ensures
        count_false(s.update(j, true)) + 1 == count_false(s),
    decreases s.len(),
{
    if j < s.len() - 1 {
        assert(s.update(j, true).drop_last() =~= s.drop_last().update(j, true));
        lemma_count_mark(s.drop_last(), j);
    } else {
        assert(s.update(j, true).drop_last() =~= s.drop_last());
    }
}

/// `am` and `em` describe the same matching of elements to matchers along
/// edges of `m`, except that the matcher `stale` (if a valid index) may still
/// name an element that has been matched elsewhere.
pub open spec fn consistent_but(m: MatchMatrix, am: Seq<Option<usize>>, em: Seq<Option<usize>>, stale: int) -> bool {
    &&& am.len() == m.height()
    &&& am.len() <= usize::MAX
    &&& em.len() == m.columns
    &&& forall|i: int|
        0 <= i < am.len() && (#[trigger] am[i]) is Some ==> (am[i].unwrap() < m.columns && m.edge(
            i,
            am[i].unwrap() as int,
        ) && em[am[i].unwrap() as int] == Some(i as usize))
    &&& forall|j: int|
        0 <= j < em.len() && j != stale && (#[trigger] em[j]) is Some ==> (em[j].unwrap() < m.height() && am[em[j].unwrap() as int] == Some(j as usize))
}

/// `am` and `em` describe the same matching of elements to matchers along
/// edges of `m`.
pub open spec fn consistent(m: MatchMatrix, am: Seq<Option<usize>>, em: Seq<Option<usize>>) -> bool {
    consistent_but(m, am, em, -1)
}

/// The column of an optional match, or -1.
pub open spec fn column_of(o: Option<usize>) -> int {
    match o {
        Some(j) => j as int,
        None => -1,
    }
}

/// `am` matches elements to matchers along edges of `m`, each matcher to at
/// most one element.
pub open spec fn is_matching(m: MatchMatrix, am: Seq<Option<usize>>) -> bool {
    &&& am.len() == m.height()
    &&& forall|i: int|
        0 <= i < am.len() && (#[trigger] am[i]) is Some ==> am[i].unwrap() < m.columns && m.edge(i, am[i].unwrap() as int)
    &&& forall|i: int, k: int|
        0 <= i < am.len() && 0 <= k < am.len() && i != k && (#[trigger] am[i]) is Some && (#[trigger] am[k]) is Some ==> am[i] != am[k]
}

proof fn lemma_consistent_matching(m: MatchMatrix, am: Seq<Option<usize>>, em: Seq<Option<usize>>)
    requires
        consistent(m, am, em),
    ensures
        is_matching(m, am),
{
    assert forall|i: int, k: int|
        0 <= i < am.len() && 0 <= k < am.len() && i != k && (#[trigger] am[i]) is Some && (#[trigger] am[k]) is Some implies am[i] != am[k] by {
        if am[i] == am[k] {
            assert(em[am[i].unwrap() as int] == Some(i as usize));
            assert(em[am[k].unwrap() as int] == Some(k as usize));
        }
    }
}

/// Every matcher marked in `seen` but not in `before` is matched to an
/// element, and every matcher that element matches is marked in `seen`.
pub open spec fn closed_beyond(m: MatchMatrix, em: Seq<Option<usize>>, seen: Seq<bool>, before: Seq<bool>) -> bool {
    forall|j: int|
        0 <= j < m.columns && #[trigger] seen[j] && !before[j] ==> em[j] is Some && forall|l: int|
            0 <= l < m.columns && #[trigger] m.edge(em[j].unwrap() as int, l) ==> seen[l]
}

/// The elements that `am` matches to some matcher.
pub open spec fn matched_rows(am: Seq<Option<usize>>) -> Set<int> {
    Set::new(|r: int| 0 <= r < am.len() && am[r] is Some)
}

/// The number of pairs of the matching `am`.
pub open spec fn matching_size(am: Seq<Option<usize>>) -> nat {
    matched_rows(am).len()
}

/// `am` is a matching of `m` with as many pairs as any matching of `m`.
pub open spec fn is_maximum_matching(m: MatchMatrix, am: Seq<Option<usize>>) -> bool {
    &&& is_matching(m, am)
    &&& forall|am2: Seq<Option<usize>>| is_matching(m, am2) ==> #[trigger] matching_size(am2) <= matching_size(am)
}

/// The integers in `[0, n)` for which `p` holds form a finite set of at most
/// `n` elements.
proof fn lemma_bounded_set(s: Set<int>, n: int)
    requires
        0 <= n,
        forall|x: int| #[trigger] s.contains(x) ==> 0 <= x < n,
    ensures
        s.finite(),
        s.len() <= n,
{
    vstd::set_lib::lemma_int_range(0, n);
    assert(s.subset_of(vstd::set_lib::set_int_range(0, n)));
    vstd::set_lib::lemma_len_subset(s, vstd::set_lib::set_int_range(0, n));
}

/// A cover certificate: when every matcher that an unmatched element
/// matches is in `zc`, and every matcher in `zc` is matched to an element
/// all of whose matchers are in `zc`, no matching of `m` has more pairs than
/// the matching `am`.
proof fn lemma_cover_bound(m: MatchMatrix, am: Seq<Option<usize>>, em: Seq<Option<usize>>, zc: Seq<bool>, am2: Seq<Option<usize>>)
    requires
        consistent(m, am, em),
        zc.len() == m.columns,
        forall|r: int, l: int|
            0 <= r < m.height() && am[r] is None && 0 <= l < m.columns && #[trigger] m.edge(r, l) ==> zc[l],
        forall|j: int| 0 <= j < m.columns && #[trigger] zc[j] ==> em[j] is Some,
        forall|j: int, l: int|
            0 <= j < m.columns && zc[j] && 0 <= l < m.columns && #[trigger] m.edge(em[j].unwrap() as int, l) ==> zc[l],
        is_matching(m, am2),
    ensures
        matching_size(am2) <= matching_size(am),
{
    let h = m.height() as int;
    let cols = m.columns as int;
    let xa = Set::new(|r: int| 0 <= r < h && am[r] is Some && !zc[am[r].unwrap() as int]);
    let za = Set::new(|r: int| 0 <= r < h && am[r] is Some && zc[am[r].unwrap() as int]);
    let zcs = Set::new(|j: int| 0 <= j < cols && zc[j]);
    let x2 = Set::new(|r: int| 0 <= r < h && am2[r] is Some && am[r] is Some && !zc[am[r].unwrap() as int]);
    let y2 = Set::new(|r: int| 0 <= r < h && am2[r] is Some && !(am[r] is Some && !zc[am[r].unwrap() as int]));
    let g = |r: int| am[r].unwrap() as int;
    let f2 = |r: int| am2[r].unwrap() as int;
    lemma_bounded_set(xa, h);
    lemma_bounded_set(za, h);
    lemma_bounded_set(zcs, cols);
    lemma_bounded_set(x2, h);
    lemma_bounded_set(y2, h);
    lemma_bounded_set(matched_rows(am), h);
    lemma_bounded_set(matched_rows(am2), h);
    // The matched elements of `am` are those in `xa` and those in `za`.
    assert(matched_rows(am) =~= xa + za);
    assert(xa.disjoint(za));
    vstd::set_lib::lemma_set_disjoint_lens(xa, za);
    // Those of `am2` are those in `x2` and those in `y2`.
    assert(matched_rows(am2) =~= x2 + y2);
    assert(x2.disjoint(y2));
    vstd::set_lib::lemma_set_disjoint_lens(x2, y2);
    // `x2` is part of `xa`.
    assert(x2.subset_of(xa));
    vstd::set_lib::lemma_len_subset(x2, xa);
    // The elements of `za` are matched one to one to the matchers of `zc`.
    assert(vstd::relations::injective_on(g, za)) by {
        assert forall|r1: int, r2: int| za.contains(r1) && za.contains(r2) && #[trigger] g(r1) == #[trigger] g(r2) implies r1 == r2 by {
            assert(em[am[r1].unwrap() as int] == Some(r1 as usize));
            assert(em[am[r2].unwrap() as int] == Some(r2 as usize));
        }
    }
    assert(za.map(g) =~= zcs) by {
        assert forall|j: int| #[trigger] zcs.contains(j) implies za.map(g).contains(j) by {
            let r = em[j].unwrap() as int;
            assert(am[r] == Some(j as usize));
            assert(za.contains(r) && g(r) == j);
        }
        assert forall|j: int| #[trigger] za.map(g).contains(j) implies zcs.contains(j) by {
            let r = choose|r: int| za.contains(r) && g(r) == j;
            assert(za.contains(r));
        }
    }
    vstd::set_lib::lemma_map_size(za, zcs, g);
    // The elements of `y2` are matched by `am2` one to one to matchers of `zc`.
    assert(vstd::relations::injective_on(f2, y2)) by {
        assert forall|r1: int, r2: int| y2.contains(r1) && y2.contains(r2) && #[trigger] f2(r1) == #[trigger] f2(r2) implies r1 == r2 by {
            if r1 != r2 {
                assert(am2[r1] != am2[r2]);
            }
        }
    }
    assert(y2.map(f2).subset_of(zcs)) by {
        assert forall|j: int| #[trigger] y2.map(f2).contains(j) implies zcs.contains(j) by {
            let r = choose|r: int| y2.contains(r) && f2(r) == j;
            assert(y2.contains(r));
            assert(m.edge(r, j));
            if am[r] is Some {
                let c0 = am[r].unwrap() as int;
                assert(zc[c0]);
                assert(em[c0] == Some(r as usize));
                assert(m.edge(em[c0].unwrap() as int, j));
            }
        }
    }
    lemma_bounded_set(y2.map(f2), cols);
    vstd::set_lib::lemma_map_size(y2, y2.map(f2), f2);
    vstd::set_lib::lemma_len_subset(y2.map(f2), zcs);
}

impl MatchMatrix {
    /// Searches the residual graph from element `a` for a matcher that is
    /// free or whose element can be moved to another free matcher, marking
    /// the matchers visited in `seen`; when it finds one, it moves the
    /// matches along that path, so that `a` is matched.
    fn try_augment(&self, a: usize, seen: &mut Vec<bool>, am: &mut Vec<Option<usize>>, em: &mut Vec<Option<usize>>) -> (found: bool)
        requires
            self.wf(),
            a < self.height(),
            old(seen)@.len() == self.columns,
            consistent(*self, old(am)@, old(em)@),
            old(am)@[a as int] is Some ==> old(seen)@[old(am)@[a as int].unwrap() as int],
        ensures
            covers(final(seen)@, old(seen)@),
            forall|j: int| 0 <= j < self.columns && #[trigger] old(seen)@[j] ==> final(em)@[j] == old(em)@[j],
            forall|i: int| 0 <= i < self.height() && #[trigger] final(am)@[i] != old(am)@[i] ==> (i == a || old(am)@[i] is Some),
            forall|i: int| 0 <= i < self.height() && (#[trigger] old(am)@[i]) is Some ==> final(am)@[i] is Some,
            !found ==> final(am)@ == old(am)@ && final(em)@ == old(em)@,
            !found ==> forall|l: int| 0 <= l < self.columns && #[trigger] self.edge(a as int, l) ==> final(seen)@[l],
            !found ==> closed_beyond(*self, final(em)@, final(seen)@, old(seen)@),
            found ==> final(am)@[a as int] is Some && !old(seen)@[final(am)@[a as int].unwrap() as int]
                && consistent_but(*self, final(am)@, final(em)@, column_of(old(am)@[a as int]))
                && (old(am)@[a as int] matches Some(jo) ==> final(em)@[jo as int] == Some(a)),
        decreases count_false(old(seen)@),
    {
        let ghost seen0 = seen@;
        let ghost am0 = am@;
        let ghost em0 = em@;
        let mut j: usize = 0;
        while j < self.columns
            invariant
                self.wf(),
                a < self.height(),
                j <= self.columns,
                seen@.len() == self.columns,
                covers(seen@, seen0),
                am@ == am0,
                em@ == em0,
                seen0 == old(seen)@,
                am0 == old(am)@,
                em0 == old(em)@,
                consistent(*self, am0, em0),
                am0[a as int] is Some ==> seen0[am0[a as int].unwrap() as int],
                forall|l: int| 0 <= l < self.columns && #[trigger] seen0[l] ==> seen@[l],
                forall|l: int| 0 <= l < j && #[trigger] self.edge(a as int, l) ==> seen@[l],
                closed_beyond(*self, em0, seen@, seen0),
            decreases self.columns - j,
        {
            if seen[j] || !self.rows[a][j] {
                assert(self.edge(a as int, j as int) ==> seen@[j as int]);
                j = j + 1;
                continue;
            }
            assert(self.edge(a as int, j as int));
            let ghost before = seen@;
            seen.set(j, true);
            proof {
                lemma_count_mark(before, j as int);
                lemma_count_covers(before, seen0);
                assert(covers(seen@, seen0));
            }
            let ghost seen_at_call = seen@;
            let free = em[j].is_none();
            let moved = if free {
                true
            } else {
                let k = em[j].unwrap();
                proof {
                    assert(em0[j as int] is Some);
                    assert(am0[k as int] == Some(j));
                    if k == a {
                        assert(seen0[j as int]);
                    }
                }
                self.try_augment(k, seen, am, em)
            };
            if moved {
                proof {
                    if !free {
                        let k = em0[j as int].unwrap();
                        assert(seen_at_call[j as int]);
                        assert(em@[j as int] == em0[j as int]);
                        assert(am@[k as int] != Some(j)) by {
                            assert(!before[am@[k as int].unwrap() as int]);
                        }
                        assert forall|i: int| 0 <= i < am@.len() && (#[trigger] am@[i]) is Some implies am@[i] != Some(j) by {
                            if am@[i] == Some(j) {
                                assert(em@[j as int] == Some(i as usize));
                            }
                        }
                    } else {
                        assert forall|i: int| 0 <= i < am@.len() && (#[trigger] am@[i]) is Some implies am@[i] != Some(j) by {
                            if am@[i] == Some(j) {
                                assert(em0[j as int] == Some(i as usize));
                            }
                        }
                    }
                }
                em.set(j, Some(a));
                am.set(a, Some(j));
                return true;
            }
            proof {
                // The search from the element of matcher `j` failed: it left
                // the matching as it was and closed what it marked.
                assert(!free);
                assert(seen@[j as int]);
                assert(em@ == em0);
                let k = em0[j as int].unwrap() as int;
                assert forall|l: int| 0 <= l < j + 1 && #[trigger] self.edge(a as int, l) implies seen@[l] by {
                    if l < j {
                        assert(before[l]);
                        assert(seen_at_call[l]);
                    }
                }
                assert forall|x: int|
                    0 <= x < self.columns && #[trigger] seen@[x] && !seen0[x] implies em0[x] is Some && forall|l: int|
                        0 <= l < self.columns && #[trigger] self.edge(em0[x].unwrap() as int, l) ==> seen@[l] by {
                    if seen_at_call[x] {
                        if x != j {
                            assert(before[x]);
                            assert forall|l: int|
                                0 <= l < self.columns && #[trigger] self.edge(em0[x].unwrap() as int, l) implies seen@[l] by {
                                assert(before[l]);
                                assert(seen_at_call[l]);
                            }
                        }
                    }
                }
            }
            j = j + 1;
        }
        false
    }

    /// A maximum matching of elements to matchers, found by augmenting
    /// paths: a pass tries each unmatched element once, in order, and passes
    /// repeat until one adds no pair. (The first pass already finds a
    /// maximum matching; the last one shows that no pair can be added.)
    pub fn find_best_match(&self) -> (b: BestMatch)
        requires
            self.wf(),
        ensures
            is_maximum_matching(*self, b.0@),
            b.1 == self.columns,
    {
        let mut am: Vec<Option<usize>> = Vec::new();
        let mut i: usize = 0;
        while i < self.rows.len()
            invariant
                i <= self.height(),
                am@.len() == i,
                forall|k: int| 0 <= k < i ==> am@[k] is None,
            decreases self.height() - i,
        {
            am.push(None);
            i = i + 1;
        }
        let mut em: Vec<Option<usize>> = Vec::new();
        let mut j: usize = 0;
        while j < self.columns
            invariant
                j <= self.columns,
                em@.len() == j,
                forall|k: int| 0 <= k < j ==> em@[k] is None,
            decreases self.columns - j,
        {
            em.push(None);
            j = j + 1;
        }
        proof {
            lemma_bounded_set(matched_rows(am@), self.height() as int);
        }
        loop
            invariant
                self.wf(),
                consistent(*self, am@, em@),
                matching_size(am@) <= self.height(),
            decreases self.height() - matching_size(am@),
        {
            let ghost am_pass = am@;
            let ghost em_pass = em@;
            let ghost mut zc: Seq<bool> = Seq::new(self.columns as nat, |l: int| false);
            let mut changed = false;
            let mut r: usize = 0;
            while r < self.rows.len()
                invariant
                    self.wf(),
                    r <= self.height(),
                    consistent(*self, am@, em@),
                    am_pass.len() == self.height(),
                    forall|q: int| 0 <= q < self.height() && (#[trigger] am_pass[q]) is Some ==> am@[q] is Some,
                    !changed ==> am@ == am_pass && em@ == em_pass,
                    changed ==> matching_size(am@) > matching_size(am_pass),
                    zc.len() == self.columns,
                    !changed ==> forall|q: int, l: int|
                        0 <= q < r && am@[q] is None && 0 <= l < self.columns && #[trigger] self.edge(q, l) ==> zc[l],
                    !changed ==> forall|l: int| 0 <= l < self.columns && #[trigger] zc[l] ==> em@[l] is Some,
                    !changed ==> forall|l: int, l2: int|
                        0 <= l < self.columns && zc[l] && 0 <= l2 < self.columns && #[trigger] self.edge(
                            em@[l].unwrap() as int,
                            l2,
                        ) ==> zc[l2],
                decreases self.height() - r,
            {
                if am[r].is_none() {
                    let mut seen: Vec<bool> = Vec::new();
                    let mut l: usize = 0;
                    while l < self.columns
                        invariant
                            l <= self.columns,
                            seen@.len() == l,
                            forall|k: int| 0 <= k < l ==> !seen@[k],
                        decreases self.columns - l,
                    {
                        seen.push(false);
                        l = l + 1;
                    }
                    let ghost am_before = am@;
                    let ghost seen_before = seen@;
                    if self.try_augment(r, &mut seen, &mut am, &mut em) {
                        proof {
                            lemma_bounded_set(matched_rows(am_before), self.height() as int);
                            lemma_bounded_set(matched_rows(am@), self.height() as int);
                            assert(!matched_rows(am_before).contains(r as int));
                            assert(matched_rows(am_before).insert(r as int).subset_of(matched_rows(am@)));
                            vstd::set_lib::lemma_len_subset(matched_rows(am_before).insert(r as int), matched_rows(am@));
                            if !changed {
                                assert(am_before == am_pass);
                            }
                        }
                        changed = true;
                    } else {
                        proof {
                            let z0 = zc;
                            zc = Seq::new(self.columns as nat, |l: int| z0[l] || seen@[l]);
                            if !changed {
                                assert forall|q: int, l2: int|
                                    0 <= q < r + 1 && am@[q] is None && 0 <= l2 < self.columns && #[trigger] self.edge(q, l2)
                                        implies zc[l2] by {
                                    if q == r {
                                        assert(seen@[l2]);
                                    } else {
                                        assert(z0[l2]);
                                    }
                                }
                                assert forall|l: int| 0 <= l < self.columns && #[trigger] zc[l] implies em@[l] is Some by {
                                    if !z0[l] {
                                        assert(seen@[l] && !seen_before[l]);
                                    }
                                }
                                assert forall|l: int, l2: int|
                                    0 <= l < self.columns && zc[l] && 0 <= l2 < self.columns && #[trigger] self.edge(
                                        em@[l].unwrap() as int,
                                        l2,
                                    ) implies zc[l2] by {
                                    if z0[l] {
                                        assert(z0[l2]);
                                    } else {
                                        assert(seen@[l] && !seen_before[l]);
                                        assert(seen@[l2]);
                                    }
                                }
                            }
                        }
                    }
                }
                r = r + 1;
            }
            proof {
                lemma_bounded_set(matched_rows(am@), self.height() as int);
            }
            if !changed {
                proof {
                    lemma_consistent_matching(*self, am@, em@);
                    assert forall|am2: Seq<Option<usize>>| is_matching(*self, am2) implies #[trigger] matching_size(am2)
                        <= matching_size(am@) by {
                        lemma_cover_bound(*self, am@, em@, zc, am2);
                    }
                }
                return BestMatch(am, self.columns);
            }
        }
    }
}

/// A matching of elements to matchers: for each element, the matcher it is
/// matched to, if any; and the number of matchers.
pub struct BestMatch(pub Vec<Option<usize>>, pub usize);

/// The indices of the `true` entries of `v`, in order.
pub open spec fn marked_indices(v: Seq<bool>) -> Seq<int>
    decreases v.len(),
{
    if v.len() == 0 {
        Seq::empty()
    } else if v.last() {
        marked_indices(v.drop_last()).push(v.len() - 1)
    } else {
        marked_indices(v.drop_last())
    }
}

/// Indices written `#i`, separated by `", "`.
pub open spec fn index_list(idx: Seq<int>) -> Seq<char>
    decreases idx.len(),
{
    if idx.len() == 0 {
        Seq::empty()
    } else if idx.len() == 1 {
        seq!['#'] + decimal(idx[0] as nat)
    } else {
        index_list(idx.drop_last()) + seq![',', ' ', '#'] + decimal(idx.last() as nat)
    }
}

/// The explanation of the unmatchable elements `a` and matchers `e`.
pub open spec fn unmatchable_text(a: Seq<int>, e: Seq<int>) -> Option<Seq<char>> {
    let actual_part = if a.len() == 1 {
        "whose element "@ + index_list(a) + " does not match any expected elements"@
    } else {
        "whose elements "@ + index_list(a) + " do not match any expected elements"@
    };
    let expected_part = if e.len() == 1 {
        "the expected element "@ + index_list(e)
    } else {
        "the expected elements "@ + index_list(e)
    };
    if a.len() == 0 && e.len() == 0 {
        None
    } else if e.len() == 0 {
        Some(actual_part)
    } else if a.len() == 0 {
        if e.len() == 1 {
            Some("which has no element matching "@ + expected_part)
        } else {
            Some("which has no elements matching "@ + expected_part)
        }
    } else {
        Some(actual_part + " and no elements match "@ + expected_part)
    }
}

/// The indices of the `true` entries of `v`.
fn marked(v: &[bool]) -> (r: Vec<usize>)
    ensures
        r@.len() == marked_indices(v@).len(),
        forall|k: int| 0 <= k < r@.len() ==> #[trigger] r@[k] as int == marked_indices(v@)[k],
{
    let mut r: Vec<usize> = Vec::new();
    let mut i: usize = 0;
    while i < v.len()
        invariant
            i <= v@.len(),
            r@.len() == marked_indices(v@.take(i as int)).len(),
            forall|k: int| 0 <= k < r@.len() ==> #[trigger] r@[k] as int == marked_indices(v@.take(i as int))[k],
        decreases v@.len() - i,
    {
        proof {
            assert(v@.take(i + 1).drop_last() =~= v@.take(i as int));
            assert(v@.take(i + 1).last() == v@[i as int]);
        }
        if v[i] {
            r.push(i);
        }
        i = i + 1;
    }
    assert(v@.take(v@.len() as int) =~= v@);
    r
}

/// Appends `#i` for each index, separated by `", "`.
fn push_index_list(out: &mut Vec<char>, idx: &[usize], spec_idx: Ghost<Seq<int>>)
    requires
        idx@.len() == spec_idx@.len(),
        forall|k: int| 0 <= k < idx@.len() ==> #[trigger] idx@[k] as int == spec_idx@[k],
    ensures
        final(out)@ == old(out)@ + index_list(spec_idx@),
{
    let ghost start = out@;
    let mut k: usize = 0;
    while k < idx.len()
        invariant
            k <= idx@.len(),
            idx@.len() == spec_idx@.len(),
            forall|l: int| 0 <= l < idx@.len() ==> #[trigger] idx@[l] as int == spec_idx@[l],
            out@ == start + index_list(spec_idx@.take(k as int)),
        decreases idx@.len() - k,
    {
        if k > 0 {
            out.push(',');
            out.push(' ');
        }
        out.push('#');
        push_decimal(out, idx[k]);
        proof {
            let t = spec_idx@.take(k + 1);
            assert(t.drop_last() =~= spec_idx@.take(k as int));
            assert(t.last() == spec_idx@[k as int]);
            assert(out@ =~= start + index_list(t));
        }
        k = k + 1;
    }
    assert(spec_idx@.take(spec_idx@.len() as int) =~= spec_idx@);
}

impl UnmatchableElements {
    /// Explains which elements and matchers nothing matches, if any.
    pub fn get_explanation(&self) -> (d: Option<Description>)
        ensures
            unmatchable_text(marked_indices(self.unmatchable_actual@), marked_indices(self.unmatchable_expected@)) is None <==> d is None,
            d matches Some(x) ==> is_text(x, unmatchable_text(marked_indices(self.unmatchable_actual@), marked_indices(self.unmatchable_expected@)).unwrap()),
    {
        let ghost sa = marked_indices(self.unmatchable_actual@);
        let ghost se = marked_indices(self.unmatchable_expected@);
        let a = marked(self.unmatchable_actual.as_slice());
        let e = marked(self.unmatchable_expected.as_slice());
        if a.len() == 0 && e.len() == 0 {
            return None;
        }
        let mut v: Vec<char> = Vec::new();
        if a.len() > 0 {
            if a.len() == 1 {
                push_str(&mut v, "whose element ");
                push_index_list(&mut v, a.as_slice(), Ghost(sa));
                push_str(&mut v, " does not match any expected elements");
            } else {
                push_str(&mut v, "whose elements ");
                push_index_list(&mut v, a.as_slice(), Ghost(sa));
                push_str(&mut v, " do not match any expected elements");
            }
            if e.len() > 0 {
                push_str(&mut v, " and no elements match ");
            }
        } else if e.len() == 1 {
            push_str(&mut v, "which has no element matching ");
        } else {
            push_str(&mut v, "which has no elements matching ");
        }
        if e.len() == 1 {
            push_str(&mut v, "the expected element ");
            push_index_list(&mut v, e.as_slice(), Ghost(se));
        } else if e.len() > 1 {
            push_str(&mut v, "the expected elements ");
            push_index_list(&mut v, e.as_slice(), Ghost(se));
        }
        assert(v@ =~= unmatchable_text(sa, se).unwrap());
        Some(Description::from_chars(v.as_slice()))
    }
}

/// Whether a requirement needs every element to match some matcher.
pub open spec fn checks_rows(r: Requirements) -> bool {
    r != Requirements::Superset
}

/// Whether a requirement needs every matcher to match some element.
pub open spec fn checks_columns(r: Requirements) -> bool {
    r != Requirements::Subset
}

/// Every element is matched.
pub open spec fn all_rows_matched(am: Seq<Option<usize>>) -> bool {
    forall|i: int| 0 <= i < am.len() ==> (#[trigger] am[i]) is Some
}

/// Some element is matched to the matcher `j`.
pub open spec fn column_matched(am: Seq<Option<usize>>, j: int) -> bool {
    exists|i: int| 0 <= i < am.len() && am[i] == Some(j as usize)
}

/// Every matcher below `columns` is matched.
pub open spec fn all_columns_matched(am: Seq<Option<usize>>, columns: nat) -> bool {
    forall|j: int| 0 <= j < columns ==> #[trigger] column_matched(am, j)
}

/// The matchers below `columns` to which no element is matched, in order.
pub open spec fn unmatched_columns(am: Seq<Option<usize>>, columns: int) -> Seq<int>
    decreases columns,
{
    if columns <= 0 {
        Seq::empty()
    } else if column_matched(am, columns - 1) {
        unmatched_columns(am, columns - 1)
    } else {
        unmatched_columns(am, columns - 1).push(columns - 1)
    }
}

impl BestMatch {
    /// Whether every element is matched.
    pub fn is_full_match(&self) -> (b: bool)
        ensures
            b == all_rows_matched(self.0@),
    {
        let mut i: usize = 0;
        while i < self.0.len()
            invariant
                i <= self.0@.len(),
                forall|k: int| 0 <= k < i ==> (#[trigger] self.0@[k]) is Some,
            decreases self.0@.len() - i,
        {
            if self.0[i].is_none() {
                return false;
            }
            i = i + 1;
        }
        true
    }

    /// Whether every element is matched.
    pub fn is_subset_match(&self) -> (b: bool)
        ensures
            b == all_rows_matched(self.0@),
    {
        self.is_full_match()
    }

    /// Whether some element is matched to matcher `j`.
    fn is_column_matched(&self, j: usize) -> (b: bool)
        ensures
            b == column_matched(self.0@, j as int),
    {
        let mut i: usize = 0;
        while i < self.0.len()
            invariant
                i <= self.0@.len(),
                forall|k: int| 0 <= k < i ==> self.0@[k] != Some(j),
            decreases self.0@.len() - i,
        {
            if self.0[i] == Some(j) {
                return true;
            }
            i = i + 1;
        }
        false
    }

    /// The matchers to which no element is matched.
    pub fn get_unmatched_expected(&self) -> (r: Vec<usize>)
        ensures
            r@.len() == unmatched_columns(self.0@, self.1 as int).len(),
            forall|k: int| 0 <= k < r@.len() ==> #[trigger] r@[k] as int == unmatched_columns(self.0@, self.1 as int)[k],
    {
        let mut r: Vec<usize> = Vec::new();
        let mut j: usize = 0;
        while j < self.1
            invariant
                j <= self.1,
                r@.len() == unmatched_columns(self.0@, j as int).len(),
                forall|k: int| 0 <= k < r@.len() ==> #[trigger] r@[k] as int == unmatched_columns(self.0@, j as int)[k],
            decreases self.1 - j,
        {
            if !self.is_column_matched(j) {
                r.push(j);
            }
            j = j + 1;
        }
        r
    }

    /// Whether every matcher is matched.
    pub fn is_superset_match(&self) -> (b: bool)
        ensures
            b == all_columns_matched(self.0@, self.1 as nat),
    {
        let mut j: usize = 0;
        while j < self.1
            invariant
                j <= self.1,
                forall|k: int| 0 <= k < j ==> #[trigger] column_matched(self.0@, k),
            decreases self.1 - j,
        {
            if !self.is_column_matched(j) {
                return false;
            }
            j = j + 1;
        }
        true
    }
}

/// A matching matches every element exactly when it has as many pairs as
/// there are elements.
proof fn lemma_all_rows_size(m: MatchMatrix, am: Seq<Option<usize>>)
    requires
        am.len() == m.height(),
    ensures
        matching_size(am) <= am.len(),
        all_rows_matched(am) <==> matching_size(am) == am.len(),
{
    let range = vstd::set_lib::set_int_range(0, am.len() as int);
    vstd::set_lib::lemma_int_range(0, am.len() as int);
    lemma_bounded_set(matched_rows(am), am.len() as int);
    if all_rows_matched(am) {
        assert(matched_rows(am) =~= range);
    }
    if matching_size(am) == am.len() {
        assert(matched_rows(am).subset_of(range));
        vstd::set_lib::lemma_subset_equality(matched_rows(am), range);
        assert forall|i: int| 0 <= i < am.len() implies (#[trigger] am[i]) is Some by {
            assert(range.contains(i));
        }
    }
}

/// A matching matches every matcher exactly when it has at least as many
/// pairs as there are matchers.
proof fn lemma_all_columns_size(m: MatchMatrix, am: Seq<Option<usize>>)
    requires
        is_matching(m, am),
    ensures
        matching_size(am) <= m.columns,
        all_columns_matched(am, m.columns as nat) <==> matching_size(am) >= m.columns,
{
    let cols = m.columns as int;
    let range = vstd::set_lib::set_int_range(0, cols);
    let rows = matched_rows(am);
    let f = |r: int| am[r].unwrap() as int;
    vstd::set_lib::lemma_int_range(0, cols);
    lemma_bounded_set(rows, am.len() as int);
    assert(vstd::relations::injective_on(f, rows)) by {
        assert forall|r1: int, r2: int| rows.contains(r1) && rows.contains(r2) && #[trigger] f(r1) == #[trigger] f(r2) implies r1 == r2 by {
            if r1 != r2 {
                assert(am[r1] != am[r2]);
            }
        }
    }
    assert(rows.map(f).subset_of(range)) by {
        assert forall|j: int| #[trigger] rows.map(f).contains(j) implies range.contains(j) by {
            let r = choose|r: int| rows.contains(r) && f(r) == j;
            assert(rows.contains(r));
        }
    }
    lemma_bounded_set(rows.map(f), cols);
    vstd::set_lib::lemma_map_size(rows, rows.map(f), f);
    if all_columns_matched(am, m.columns as nat) {
        assert(rows.map(f) =~= range) by {
            assert forall|j: int| #[trigger] range.contains(j) implies rows.map(f).contains(j) by {
                assert(column_matched(am, j));
                let r = choose|r: int| 0 <= r < am.len() && am[r] == Some(j as usize);
                assert(rows.contains(r) && f(r) == j);
            }
        }
    }
    if matching_size(am) >= m.columns {
        vstd::set_lib::lemma_subset_equality(rows.map(f), range);
        assert forall|j: int| 0 <= j < cols implies #[trigger] column_matched(am, j) by {
            assert(range.contains(j));
            assert(rows.map(f).contains(j));
            let r = choose|r: int| rows.contains(r) && f(r) == j;
            assert(rows.contains(r));
            assert(am[r] == Some(j as usize));
        }
    }
}

impl MatchMatrix {
    /// Whether the elements and matchers meet `requirements`: for a perfect
    /// match, every matcher matches some element and some matching matches
    /// every element; for a superset, some matching matches every matcher;
    /// for a subset, some matching matches every element.
    pub fn is_match_for(&self, requirements: Requirements) -> (b: bool)
        requires
            self.wf(),
        ensures
            requirements == Requirements::PerfectMatch ==> (b <==> (forall|j: int| 0 <= j < self.columns ==> #[trigger] self.column_has_edge(j))
                && exists|am: Seq<Option<usize>>| is_matching(*self, am) && #[trigger] all_rows_matched(am)),
            requirements == Requirements::Superset ==> (b <==> exists|am: Seq<Option<usize>>| is_matching(*self, am) && #[trigger] all_columns_matched(am, self.columns as nat)),
            requirements == Requirements::Subset ==> (b <==> exists|am: Seq<Option<usize>>| is_matching(*self, am) && #[trigger] all_rows_matched(am)),
    {
        match requirements {
            Requirements::PerfectMatch => {
                let u = self.find_unmatchable_elements();
                if u.has_unmatchable_elements() {
                    proof {
                        if exists|am: Seq<Option<usize>>| is_matching(*self, am) && #[trigger] all_rows_matched(am) {
                            let am = choose|am: Seq<Option<usize>>| is_matching(*self, am) && #[trigger] all_rows_matched(am);
                            if exists|i: int| 0 <= i < u.unmatchable_actual@.len() && #[trigger] u.unmatchable_actual@[i] {
                                let i = choose|i: int| 0 <= i < u.unmatchable_actual@.len() && #[trigger] u.unmatchable_actual@[i];
                                assert(am[i] is Some);
                                assert(self.edge(i, am[i].unwrap() as int));
                            } else {
                                let j = choose|j: int| 0 <= j < u.unmatchable_expected@.len() && #[trigger] u.unmatchable_expected@[j];
                                assert(!self.column_has_edge(j));
                            }
                        }
                    }
                    return false;
                }
                let best = self.find_best_match();
                let r = best.is_full_match();
                proof {
                    assert forall|j: int| 0 <= j < self.columns implies #[trigger] self.column_has_edge(j) by {
                        if !u.unmatchable_expected@[j] {
                        } else {
                            assert(u.any_marked());
                        }
                    }
                    if exists|am: Seq<Option<usize>>| is_matching(*self, am) && #[trigger] all_rows_matched(am) {
                        let am = choose|am: Seq<Option<usize>>| is_matching(*self, am) && #[trigger] all_rows_matched(am);
                        lemma_all_rows_size(*self, am);
                        lemma_all_rows_size(*self, best.0@);
                        assert(matching_size(am) <= matching_size(best.0@));
                    }
                    if r {
                        assert(all_rows_matched(best.0@));
                    }
                }
                r
            },
            Requirements::Superset => {
                let u = self.find_unmatched_expected();
                if u.has_unmatchable_elements() {
                    proof {
                        if exists|am: Seq<Option<usize>>| is_matching(*self, am) && #[trigger] all_columns_matched(am, self.columns as nat) {
                            let am = choose|am: Seq<Option<usize>>| is_matching(*self, am) && #[trigger] all_columns_matched(am, self.columns as nat);
                            let j = choose|j: int| 0 <= j < u.unmatchable_expected@.len() && #[trigger] u.unmatchable_expected@[j];
                            assert(column_matched(am, j));
                            let i = choose|i: int| 0 <= i < am.len() && am[i] == Some(j as usize);
                            assert(self.edge(i, j));
                        }
                    }
                    return false;
                }
                let best = self.find_best_match();
                let r = best.is_superset_match();
                proof {
                    if exists|am: Seq<Option<usize>>| is_matching(*self, am) && #[trigger] all_columns_matched(am, self.columns as nat) {
                        let am = choose|am: Seq<Option<usize>>| is_matching(*self, am) && #[trigger] all_columns_matched(am, self.columns as nat);
                        lemma_all_columns_size(*self, am);
                        lemma_all_columns_size(*self, best.0@);
                        assert(matching_size(am) <= matching_size(best.0@));
                    }
                    if r {
                        assert(all_columns_matched(best.0@, self.columns as nat));
                    }
                }
                r
            },
            Requirements::Subset => {
                let u = self.find_unmatched_actual();
                if u.has_unmatchable_elements() {
                    proof {
                        if exists|am: Seq<Option<usize>>| is_matching(*self, am) && #[trigger] all_rows_matched(am) {
                            let am = choose|am: Seq<Option<usize>>| is_matching(*self, am) && #[trigger] all_rows_matched(am);
                            let i = choose|i: int| 0 <= i < u.unmatchable_actual@.len() && #[trigger] u.unmatchable_actual@[i];
                            assert(am[i] is Some);
                            assert(self.edge(i, am[i].unwrap() as int));
                        }
                    }
                    return false;
                }
                let best = self.find_best_match();
                let r = best.is_subset_match();
                proof {
                    if exists|am: Seq<Option<usize>>| is_matching(*self, am) && #[trigger] all_rows_matched(am) {
                        let am = choose|am: Seq<Option<usize>>| is_matching(*self, am) && #[trigger] all_rows_matched(am);
                        lemma_all_rows_size(*self, am);
                        lemma_all_rows_size(*self, best.0@);
                        assert(matching_size(am) <= matching_size(best.0@));
                    }
                    if r {
                        assert(all_rows_matched(best.0@));
                    }
                }
                r
            },
        }
    }

    /// Explains which elements and matchers cannot be matched under
    /// `requirements`, if any.
    pub fn explain_unmatchable(&self, requirements: Requirements) -> (d: Option<Description>)
        requires
            self.wf(),
        ensures
            exists|u: UnmatchableElements|
                #[trigger] u.marks(*self, checks_rows(requirements), checks_columns(requirements))
                    && (unmatchable_text(marked_indices(u.unmatchable_actual@), marked_indices(u.unmatchable_expected@)) is None <==> d is None)
                    && (d matches Some(x) ==> is_text(x, unmatchable_text(marked_indices(u.unmatchable_actual@), marked_indices(u.unmatchable_expected@)).unwrap())),
    {
        let u = match requirements {
            Requirements::PerfectMatch => self.find_unmatchable_elements(),
            Requirements::Superset => self.find_unmatched_expected(),
            Requirements::Subset => self.find_unmatched_actual(),
        };
        let d = u.get_explanation();
        assert(u.marks(*self, checks_rows(requirements), checks_columns(requirements)));
        d
    }
}

/// The line of a best match for element `i`, matched to the matcher `j`
/// described by `d`.
pub open spec fn matched_line(item: Seq<char>, i: int, d: Seq<char>, j: int) -> Seq<char> {
    "Actual element "@ + item + " at index "@ + decimal(i as nat) + " matched expected element `"@ + d
        + "` at index "@ + decimal(j as nat) + "."@
}

/// The line of a best match for the unmatched element `i`.
pub open spec fn unmatched_actual_line(item: Seq<char>, i: int) -> Seq<char> {
    "Actual element "@ + item + " at index "@ + decimal(i as nat) + " did not match any remaining expected element."@
}

/// The line of a best match for the unmatched matcher `j` described by `d`.
pub open spec fn unmatched_expected_line(d: Seq<char>, j: int) -> Seq<char> {
    "Expected element `"@ + d + "` at index "@ + decimal(j as nat) + " did not match any remaining actual element."@
}

/// The lines for the matched elements below `i`, in order.
pub open spec fn matched_lines<T: Printable>(am: Seq<Option<usize>>, actual: Seq<T>, ds: Seq<Seq<char>>, i: int) -> Seq<Seq<char>>
    decreases i,
{
    if i <= 0 {
        Seq::empty()
    } else {
        let rest = matched_lines(am, actual, ds, i - 1);
        match am[i - 1] {
            Some(j) => rest.push(matched_line(actual[i - 1].printed(), i - 1, ds[j as int], j as int)),
            None => rest,
        }
    }
}

/// The lines for the unmatched elements below `i`, in order.
pub open spec fn unmatched_actual_lines<T: Printable>(am: Seq<Option<usize>>, actual: Seq<T>, i: int) -> Seq<Seq<char>>
    decreases i,
{
    if i <= 0 {
        Seq::empty()
    } else {
        let rest = unmatched_actual_lines(am, actual, i - 1);
        match am[i - 1] {
            Some(_) => rest,
            None => rest.push(unmatched_actual_line(actual[i - 1].pretty(), i - 1)),
        }
    }
}

/// The lines for the unmatched matchers, in order.
pub open spec fn unmatched_expected_lines(am: Seq<Option<usize>>, ds: Seq<Seq<char>>, columns: int) -> Seq<Seq<char>> {
    let u = unmatched_columns(am, columns);
    Seq::new(u.len(), |k: int| unmatched_expected_line(ds[u[k]], u[k]))
}

/// All the lines of a best match.
pub open spec fn best_match_lines<T: Printable>(am: Seq<Option<usize>>, actual: Seq<T>, ds: Seq<Seq<char>>, columns: int) -> Seq<Seq<char>> {
    matched_lines(am, actual, ds, am.len() as int) + unmatched_actual_lines(am, actual, am.len() as int)
        + unmatched_expected_lines(am, ds, columns)
}

/// The explanation of a best match that is not full, given its listing.
pub open spec fn best_match_text(r: Requirements, listing: Seq<char>) -> Seq<char> {
    "which does not have a "@ + requirements_name(r)
        + " match with the expected elements. The best match found was:\n"@ + listing
}

/// The rendered texts of descriptions.
pub open spec fn shown_each(ds: Seq<Description>) -> Seq<Seq<char>> {
    ds.map_values(|d: Description| shown(d))
}

proof fn lemma_unmatched_columns_range(am: Seq<Option<usize>>, c: int)
    ensures
        forall|k: int| 0 <= k < unmatched_columns(am, c).len() ==> 0 <= #[trigger] unmatched_columns(am, c)[k] < c,
    decreases c,
{
    if c > 0 {
        lemma_unmatched_columns_range(am, c - 1);
        let prev = unmatched_columns(am, c - 1);
        assert forall|k: int| 0 <= k < unmatched_columns(am, c).len() implies 0 <= #[trigger] unmatched_columns(am, c)[k] < c by {
            if k < prev.len() {
                assert(unmatched_columns(am, c)[k] == prev[k]);
            }
        }
    }
}

impl BestMatch {
    /// Explains, when not every element is matched, which elements and
    /// matchers the best match paired and which it left over.
    pub fn get_explanation<T: Printable, M: Matcher<ActualT = T>>(&self, actual: &[T], expected: &[M], requirements: Requirements) -> (r: Option<Description>)
        requires
            actual@.len() == self.0@.len(),
            expected@.len() == self.1,
            forall|i: int| 0 <= i < self.0@.len() && (#[trigger] self.0@[i]) is Some ==> self.0@[i].unwrap() < self.1,
        ensures
            all_rows_matched(self.0@) <==> r is None,
            r matches Some(x) ==> exists|ds: Seq<Description>, ld: Description|
                #![trigger is_listed(ld, best_match_lines(self.0@, actual@, shown_each(ds), self.1 as int), Decoration::Undecorated, 2)]
                ds.len() == expected@.len()
                && (forall|j: int| 0 <= j < ds.len() ==> #[trigger] expected@[j].describes(MatcherResult::Match, ds[j]))
                && is_listed(ld, best_match_lines(self.0@, actual@, shown_each(ds), self.1 as int), Decoration::Undecorated, 2)
                && is_text(x, best_match_text(requirements, shown(ld))),
    {
        if self.is_full_match() {
            return None;
        }
        let ghost am = self.0@;
        let mut texts: Vec<Vec<char>> = Vec::new();
        let ghost mut ds: Seq<Description> = Seq::empty();
        let mut j: usize = 0;
        while j < expected.len()
            invariant
                j <= expected@.len(),
                ds.len() == j,
                texts@.len() == j,
                forall|k: int| 0 <= k < j ==> #[trigger] expected@[k].describes(MatcherResult::Match, ds[k]),
                forall|k: int| 0 <= k < j ==> #[trigger] texts@[k]@ == shown(ds[k]),
            decreases expected@.len() - j,
        {
            let d = expected[j].describe(MatcherResult::Match);
            let t = d.to_chars();
            proof {
                ds = ds.push(d);
            }
            texts.push(t);
            j = j + 1;
        }
        let ghost dt = shown_each(ds);
        assert forall|k: int| 0 <= k < texts@.len() implies #[trigger] texts@[k]@ == dt[k] by {}
        let mut lines: Vec<Vec<char>> = Vec::new();
        let mut i: usize = 0;
        while i < self.0.len()
            invariant
                am == self.0@,
                actual@.len() == am.len(),
                texts@.len() == expected@.len(),
                expected@.len() == self.1,
                dt.len() == texts@.len(),
                forall|k: int| 0 <= k < texts@.len() ==> #[trigger] texts@[k]@ == dt[k],
                forall|l: int| 0 <= l < am.len() && (#[trigger] am[l]) is Some ==> am[l].unwrap() < self.1,
                i <= am.len(),
                lines@.map_values(|v: Vec<char>| v@) == matched_lines(am, actual@, dt, i as int),
            decreases am.len() - i,
        {
            let ghost before = lines@.map_values(|v: Vec<char>| v@);
            match self.0[i] {
                Some(jj) => {
                    let mut v: Vec<char> = Vec::new();
                    push_str(&mut v, "Actual element ");
                    actual[i].print_to(&mut v);
                    push_str(&mut v, " at index ");
                    push_decimal(&mut v, i);
                    push_str(&mut v, " matched expected element `");
                    push_all(&mut v, texts[jj].as_slice());
                    push_str(&mut v, "` at index ");
                    push_decimal(&mut v, jj);
                    push_str(&mut v, ".");
                    lines.push(v);
                    assert(lines@.map_values(|v: Vec<char>| v@) =~= before.push(matched_line(actual@[i as int].printed(), i as int, dt[jj as int], jj as int)));
                },
                None => {
                    assert(lines@.map_values(|v: Vec<char>| v@) =~= before);
                },
            }
            i = i + 1;
        }
        let ghost first = lines@.map_values(|v: Vec<char>| v@);
        let mut i: usize = 0;
        while i < self.0.len()
            invariant
                am == self.0@,
                actual@.len() == am.len(),
                i <= am.len(),
                lines@.map_values(|v: Vec<char>| v@) == first + unmatched_actual_lines(am, actual@, i as int),
            decreases am.len() - i,
        {
            let ghost before = lines@.map_values(|v: Vec<char>| v@);
            if self.0[i].is_none() {
                let mut v: Vec<char> = Vec::new();
                push_str(&mut v, "Actual element ");
                actual[i].pretty_to(&mut v);
                push_str(&mut v, " at index ");
                push_decimal(&mut v, i);
                push_str(&mut v, " did not match any remaining expected element.");
                lines.push(v);
                assert(lines@.map_values(|v: Vec<char>| v@) =~= before.push(unmatched_actual_line(actual@[i as int].pretty(), i as int)));
            } else {
                assert(lines@.map_values(|v: Vec<char>| v@) =~= before);
            }
            i = i + 1;
        }
        let ghost second = lines@.map_values(|v: Vec<char>| v@);
        let unmatched = self.get_unmatched_expected();
        let ghost u = unmatched_columns(am, self.1 as int);
        proof {
            lemma_unmatched_columns_range(am, self.1 as int);
        }
        let mut k: usize = 0;
        while k < unmatched.len()
            invariant
                texts@.len() == expected@.len(),
                expected@.len() == self.1,
                dt.len() == texts@.len(),
                forall|l: int| 0 <= l < texts@.len() ==> #[trigger] texts@[l]@ == dt[l],
                unmatched@.len() == u.len(),
                forall|l: int| 0 <= l < unmatched@.len() ==> #[trigger] unmatched@[l] as int == u[l],
                forall|l: int| 0 <= l < u.len() ==> 0 <= #[trigger] u[l] < self.1,
                k <= u.len(),
                lines@.map_values(|v: Vec<char>| v@) == second + Seq::new(k as nat, |l: int| unmatched_expected_line(dt[u[l]], u[l])),
            decreases u.len() - k,
        {
            let jj = unmatched[k];
            assert(jj as int == u[k as int]);
            let mut v: Vec<char> = Vec::new();
            push_str(&mut v, "Expected element `");
            push_all(&mut v, texts[jj].as_slice());
            push_str(&mut v, "` at index ");
            push_decimal(&mut v, jj);
            push_str(&mut v, " did not match any remaining actual element.");
            let ghost before = lines@.map_values(|v: Vec<char>| v@);
            assert(texts@[jj as int]@ == dt[jj as int]);
            assert(v@ =~= unmatched_expected_line(dt[u[k as int]], u[k as int]));
            lines.push(v);
            assert(lines@.map_values(|v: Vec<char>| v@) =~= before.push(v@));
            assert(Seq::new((k + 1) as nat, |l: int| unmatched_expected_line(dt[u[l]], u[l])) =~= Seq::new(k as nat, |l: int| unmatched_expected_line(dt[u[l]], u[l])).push(unmatched_expected_line(dt[u[k as int]], u[k as int])));
            assert(lines@.map_values(|v: Vec<char>| v@) =~= second + Seq::new((k + 1) as nat, |l: int| unmatched_expected_line(dt[u[l]], u[l])));
            k = k + 1;
        }
        assert(lines@.map_values(|v: Vec<char>| v@) =~= best_match_lines(am, actual@, dt, self.1 as int));
        let ld = Description::from_char_texts(lines.as_slice()).indent();
        let listing = ld.to_chars();
        let mut v: Vec<char> = Vec::new();
        push_str(&mut v, "which does not have a ");
        push_str(&mut v, requirements.name());
        push_str(&mut v, " match with the expected elements. The best match found was:\n");
        push_all(&mut v, listing.as_slice());
        assert(is_listed(ld, best_match_lines(self.0@, actual@, shown_each(ds), self.1 as int), Decoration::Undecorated, 2));
        Some(Description::from_chars(v.as_slice()))
    }
}

} // verus!
