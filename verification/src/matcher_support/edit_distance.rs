//! Edit lists between two sequences, computed with Myers' algorithm bounded
//! by a maximum edit distance.

use vstd::prelude::*;
use crate::text::chars_of;

verus! {

/// Maximum number of edits which can exist before [`edit_list`] gives up and
/// reports the inputs as unrelated.
pub const MAX_DISTANCE: i32 = 50;

/// The difference between two inputs as produced by [`edit_list`].
#[derive(Debug, PartialEq)]
pub enum Difference<T> {
    /// No differences were detected at all.
    Equal,
    /// The list of edits turning one input into the other.
    Editable(Vec<Edit<T>>),
    /// More than [`MAX_DISTANCE`] edits would be needed.
    Unrelated,
}

/// An edit operation on two sequences of `T`.
#[derive(Copy, Debug, PartialEq)]
pub enum Edit<T> {
    /// An extra `T` was added to the actual sequence.
    ExtraActual(T),
    /// An extra `T` was added to the expected sequence.
    ExtraExpected(T),
    /// An element was added to each sequence.
    Both(T),
    /// Additional (unlisted) elements are present in the actual sequence.
    AdditionalActual,
}

impl<T: Copy> Clone for Edit<T> {
    fn clone(&self) -> (r: Self)
        ensures
            r == *self,
    {
        *self
    }
}

/// Controls the termination condition of [`edit_list`].
#[derive(Clone, Copy, Debug, PartialEq)]
pub enum Mode {
    /// The two arguments are intended to be equal.
    Exact,
    /// `expected` is intended to be a prefix of `actual`.
    Prefix,
    /// `expected` is intended to be contained in `actual`.
    Contains,
}

/// Elements that [`edit_list`] can compare: equality is equality of views.
pub trait Token: Copy + View {
    fn same(&self, other: &Self) -> (r: bool)
        ensures
            r == (self@ == other@),
    ;
}

impl Token for char {
    fn same(&self, other: &Self) -> (r: bool) {
        *self == *other
    }
}

impl Token for i32 {
    fn same(&self, other: &Self) -> (r: bool) {
        *self == *other
    }
}

impl Token for usize {
    fn same(&self, other: &Self) -> (r: bool) {
        *self == *other
    }
}

/// Whether two character sequences are equal.
pub fn chars_equal(a: &[char], b: &[char]) -> (r: bool)
    ensures
        r == (a@ == b@),
{
    if a.len() != b.len() {
        return false;
    }
    let mut i: usize = 0;
    while i < a.len()
        invariant
            a@.len() == b@.len(),
            i <= a@.len(),
            forall|j: int| 0 <= j < i ==> a@[j] == b@[j],
        decreases a@.len() - i,
    {
        if a[i] != b[i] {
            return false;
        }
        i = i + 1;
    }
    assert(a@ =~= b@);
    true
}

impl<'a> Token for &'a [char] {
    fn same(&self, other: &Self) -> (r: bool) {
        chars_equal(*self, *other)
    }
}

impl<'a> Token for &'a str {
    fn same(&self, other: &Self) -> (r: bool) {
        let a = chars_of(*self);
        let b = chars_of(*other);
        chars_equal(a.as_slice(), b.as_slice())
    }
}

/// The views of a sequence of tokens.
pub open spec fn views<T: View>(s: Seq<T>) -> Seq<T::V> {
    s.map_values(|t: T| t@)
}

/// The elements that an edit list takes from the actual sequence.
pub open spec fn actual_side<T: View>(e: Seq<Edit<T>>) -> Seq<T::V>
    decreases e.len(),
{
    if e.len() == 0 {
        Seq::empty()
    } else {
        let r = actual_side(e.drop_last());
        match e.last() {
            Edit::ExtraActual(t) => r.push(t@),
            Edit::Both(t) => r.push(t@),
            _ => r,
        }
    }
}

/// The elements that an edit list takes from the expected sequence.
pub open spec fn expected_side<T: View>(e: Seq<Edit<T>>) -> Seq<T::V>
    decreases e.len(),
{
    if e.len() == 0 {
        Seq::empty()
    } else {
        let r = expected_side(e.drop_last());
        match e.last() {
            Edit::ExtraExpected(t) => r.push(t@),
            Edit::Both(t) => r.push(t@),
            _ => r,
        }
    }
}

/// Every edit is a common element.
pub open spec fn all_both<T>(e: Seq<Edit<T>>) -> bool {
    forall|i: int| 0 <= i < e.len() ==> e[i] is Both
}

/// No edit stands for omitted actual elements.
pub open spec fn no_additional<T>(e: Seq<Edit<T>>) -> bool {
    forall|i: int| 0 <= i < e.len() ==> !(e[i] is AdditionalActual)
}

/// `e` turns all of `a` into all of `x` and changes something.
pub open spec fn exact_transcript<V, T: View<V = V>>(e: Seq<Edit<T>>, a: Seq<V>, x: Seq<V>) -> bool {
    &&& no_additional(e)
    &&& actual_side(e) == a
    &&& expected_side(e) == x
    &&& !all_both(e)
}

/// `e` turns a prefix of `a` into all of `x`; only its last edit may be the
/// marker for the omitted rest of `a`.
pub open spec fn prefix_transcript<V, T: View<V = V>>(e: Seq<Edit<T>>, a: Seq<V>, x: Seq<V>) -> bool {
    &&& e.len() > 0 ==> no_additional(e.drop_last())
    &&& expected_side(e) == x
    &&& exists|m: int| 0 <= m <= a.len() && actual_side(e) == a.take(m)
    &&& !all_both(e)
}

/// `e` turns a contiguous part of `a` into all of `x`.
pub open spec fn contains_transcript<V, T: View<V = V>>(e: Seq<Edit<T>>, a: Seq<V>, x: Seq<V>) -> bool {
    &&& expected_side(e) == x
    &&& exists|i: int, j: int| 0 <= i <= j <= a.len() && actual_side(e) == a.subrange(i, j)
    &&& !all_both(e)
}

/// What an edit list returned in `mode` says of `a` and `x`.
pub open spec fn transcript_for<V, T: View<V = V>>(mode: Mode, e: Seq<Edit<T>>, a: Seq<V>, x: Seq<V>) -> bool {
    match mode {
        Mode::Exact => exact_transcript(e, a, x),
        Mode::Prefix => prefix_transcript(e, a, x),
        Mode::Contains => contains_transcript(e, a, x),
    }
}

/// The sides of two edit lists put together are the sides of each, put
/// together.
pub proof fn lemma_sides_concat<T: View>(s: Seq<Edit<T>>, t: Seq<Edit<T>>)
    ensures
        actual_side(s + t) == actual_side(s) + actual_side(t),
        expected_side(s + t) == expected_side(s) + expected_side(t),
    decreases t.len(),
{
    if t.len() == 0 {
        assert(s + t =~= s);
    } else {
        lemma_sides_concat(s, t.drop_last());
        assert((s + t).drop_last() =~= s + t.drop_last());
    }
}

/// An edit list without omission markers has as many edits as half its
/// sides and its changes together.
pub proof fn lemma_edits_len<T: View>(e: Seq<Edit<T>>)
    requires
        no_additional(e),
    ensures
        2 * e.len() == actual_side(e).len() + expected_side(e).len() + change_count(e),
    decreases e.len(),
{
    if e.len() > 0 {
        assert forall|i: int| 0 <= i < e.drop_last().len() implies !(e.drop_last()[i] is AdditionalActual) by {
            assert(e.drop_last()[i] == e[i]);
        }
        lemma_edits_len(e.drop_last());
        assert(!(e[e.len() - 1] is AdditionalActual));
    }
}

/// The number of edits that add or drop an element: the extra actual and
/// extra expected elements.
pub open spec fn change_count<T>(e: Seq<Edit<T>>) -> nat
    decreases e.len(),
{
    if e.len() == 0 {
        0
    } else {
        change_count(e.drop_last()) + if e.last() is ExtraActual || e.last() is ExtraExpected {
            1nat
        } else {
            0nat
        }
    }
}

proof fn lemma_change_count_concat<T>(s: Seq<Edit<T>>, t: Seq<Edit<T>>)
    ensures
        change_count(s + t) == change_count(s) + change_count(t),
    decreases t.len(),
{
    if t.len() == 0 {
        assert(s + t =~= s);
    } else {
        lemma_change_count_concat(s, t.drop_last());
        assert((s + t).drop_last() =~= s + t.drop_last());
    }
}

proof fn lemma_change_count_push<T>(s: Seq<Edit<T>>, x: Edit<T>)
    ensures
        change_count(s.push(x)) == change_count(s) + if x is ExtraActual || x is ExtraExpected {
            1nat
        } else {
            0nat
        },
        change_count(seq![x]) == if x is ExtraActual || x is ExtraExpected {
            1nat
        } else {
            0nat
        },
{
    assert(s.push(x).drop_last() =~= s);
    assert(seq![x].drop_last() =~= Seq::<Edit<T>>::empty());
    assert(seq![x].last() == x);
    assert(change_count(Seq::<Edit<T>>::empty()) == 0);
}

/// What one more edit adds to each side.
pub open spec fn actual_part<T: View>(x: Edit<T>) -> Seq<T::V> {
    match x {
        Edit::ExtraActual(t) => seq![t@],
        Edit::Both(t) => seq![t@],
        _ => Seq::empty(),
    }
}

/// What one more edit adds to the expected side.
pub open spec fn expected_part<T: View>(x: Edit<T>) -> Seq<T::V> {
    match x {
        Edit::ExtraExpected(t) => seq![t@],
        Edit::Both(t) => seq![t@],
        _ => Seq::empty(),
    }
}

/// What one more edit adds to each side of an edit list.
pub proof fn lemma_sides_push<T: View>(s: Seq<Edit<T>>, x: Edit<T>)
    ensures
        actual_side(s.push(x)) == actual_side(s) + actual_part(x),
        expected_side(s.push(x)) == expected_side(s) + expected_part(x),
        actual_side(seq![x]) == actual_part(x),
        expected_side(seq![x]) == expected_part(x),
{
    assert(s.push(x).drop_last() =~= s);
    assert(seq![x].drop_last() =~= Seq::<Edit<T>>::empty());
    let e = Seq::<Edit<T>>::empty();
    assert(actual_side(e) =~= Seq::<T::V>::empty());
    assert(expected_side(e) =~= Seq::<T::V>::empty());
    match x {
        Edit::ExtraActual(t) => {
            assert(actual_side(s.push(x)) =~= actual_side(s) + actual_part(x));
            assert(expected_side(s.push(x)) =~= expected_side(s) + expected_part(x));
            assert(actual_side(seq![x]) =~= actual_part(x));
            assert(expected_side(seq![x]) =~= expected_part(x));
        },
        Edit::ExtraExpected(t) => {
            assert(actual_side(s.push(x)) =~= actual_side(s) + actual_part(x));
            assert(expected_side(s.push(x)) =~= expected_side(s) + expected_part(x));
            assert(actual_side(seq![x]) =~= actual_part(x));
            assert(expected_side(seq![x]) =~= expected_part(x));
        },
        Edit::Both(t) => {
            assert(actual_side(s.push(x)) =~= actual_side(s) + actual_part(x));
            assert(expected_side(s.push(x)) =~= expected_side(s) + expected_part(x));
            assert(actual_side(seq![x]) =~= actual_part(x));
            assert(expected_side(seq![x]) =~= expected_part(x));
        },
        Edit::AdditionalActual => {
            assert(actual_side(s.push(x)) =~= actual_side(s) + actual_part(x));
            assert(expected_side(s.push(x)) =~= expected_side(s) + expected_part(x));
            assert(actual_side(seq![x]) =~= actual_part(x));
            assert(expected_side(seq![x]) =~= expected_part(x));
        },
    }
}

/// An edit list of common elements only has equal sides.
pub proof fn lemma_all_both_sides<T: View>(e: Seq<Edit<T>>)
    requires
        all_both(e),
    ensures
        actual_side(e) == expected_side(e),
    decreases e.len(),
{
    if e.len() > 0 {
        lemma_all_both_sides(e.drop_last());
    }
}

/// A partial path through the edit graph: how far each input has been
/// consumed, and the edits that got there.
pub struct Path<T> {
    pub actual_endpoint: usize,
    pub expected_endpoint: usize,
    pub edits: Vec<Edit<T>>,
}

/// A copy of a list of edits.
fn copy_edits<T: Copy>(edits: &Vec<Edit<T>>) -> (r: Vec<Edit<T>>)
    ensures
        r@ == edits@,
{
    let mut r: Vec<Edit<T>> = Vec::new();
    let mut i: usize = 0;
    while i < edits.len()
        invariant
            i <= edits@.len(),
            r@ == edits@.take(i as int),
        decreases edits@.len() - i,
    {
        r.push(edits[i]);
        i = i + 1;
        assert(r@ =~= edits@.take(i as int));
    }
    assert(edits@.take(edits@.len() as int) =~= edits@);
    r
}

impl<T: Copy> Path<T> {
    /// The path at the origin, with no edits.
    pub fn origin() -> (p: Path<T>)
        ensures
            p.actual_endpoint == 0,
            p.expected_endpoint == 0,
            p.edits@ == Seq::<Edit<T>>::empty(),
    {
        Path { actual_endpoint: 0, expected_endpoint: 0, edits: Vec::new() }
    }

    /// The same path, with its actual endpoint one further.
    pub fn extend_actual_endpoint(&self) -> (p: Path<T>)
        requires
            self.actual_endpoint < usize::MAX,
        ensures
            p.actual_endpoint == self.actual_endpoint + 1,
            p.expected_endpoint == self.expected_endpoint,
            p.edits@ == self.edits@,
    {
        Path {
            actual_endpoint: self.actual_endpoint + 1,
            expected_endpoint: self.expected_endpoint,
            edits: copy_edits(&self.edits),
        }
    }

    /// A copy of this path.
    pub fn duplicate(&self) -> (p: Path<T>)
        ensures
            p.actual_endpoint == self.actual_endpoint,
            p.expected_endpoint == self.expected_endpoint,
            p.edits@ == self.edits@,
    {
        Path {
            actual_endpoint: self.actual_endpoint,
            expected_endpoint: self.expected_endpoint,
            edits: copy_edits(&self.edits),
        }
    }
}

/// The index in the list of paths of the diagonal `k`, when the lowest
/// diagonal of the list is `k_min`.
pub fn index_of_k(k: i32, k_min: i32) -> (r: usize)
    requires
        k_min <= k,
        k - k_min <= i32::MAX,
    ensures
        r == (k - k_min) / 2,
{
    ((k - k_min) / 2) as usize
}

spec fn min_nat(a: int, b: int) -> int {
    if a <= b {
        a
    } else {
        b
    }
}

/// `a.take(i)` can be turned into `x.take(j)` by at most `d` insertions and
/// deletions of elements: there is a path from the start of both inputs to
/// the points `i` and `j` that takes common elements together and at most
/// `d` elements of one side alone.
pub open spec fn reach<V>(a: Seq<V>, x: Seq<V>, i: int, j: int, d: int) -> bool
    decreases i + j,
{
    if d < 0 || i < 0 || j < 0 || i > a.len() || j > x.len() {
        false
    } else if i == 0 && j == 0 {
        true
    } else {
        ||| (i > 0 && j > 0 && a[i - 1] == x[j - 1] && reach(a, x, i - 1, j - 1, d))
        ||| (i > 0 && reach(a, x, i - 1, j, d - 1))
        ||| (j > 0 && reach(a, x, i, j - 1, d - 1))
    }
}

/// `a` can be turned into `x` by at most `d` insertions and deletions of
/// elements: their edit distance is at most `d`.
pub open spec fn within_edits<V>(a: Seq<V>, x: Seq<V>, d: int) -> bool {
    reach(a, x, a.len() as int, x.len() as int, d)
}

/// Some prefix of `a` can be turned into `x` by at most `d` insertions and
/// deletions of elements.
pub open spec fn prefix_within_edits<V>(a: Seq<V>, x: Seq<V>, d: int) -> bool {
    exists|i: int| 0 <= i <= a.len() && #[trigger] reach(a, x, i, x.len() as int, d)
}

/// The points `i` and `j` are reached with at most `d` insertions and
/// deletions where the last step is one of them (or they are the start).
pub open spec fn landing<V>(a: Seq<V>, x: Seq<V>, i: int, j: int, d: int) -> bool {
    ||| (i == 0 && j == 0)
    ||| (i > 0 && reach(a, x, i - 1, j, d - 1))
    ||| (j > 0 && reach(a, x, i, j - 1, d - 1))
}

/// A path to `i` and `j` changes at least as many elements as lie between
/// their diagonal and the main one.
pub proof fn lemma_reach_diagonal<V>(a: Seq<V>, x: Seq<V>, i: int, j: int, d: int)
    requires
        reach(a, x, i, j, d),
    ensures
        -d <= i - j <= d,
    decreases i + j,
{
    if !(i == 0 && j == 0) {
        if i > 0 && j > 0 && a[i - 1] == x[j - 1] && reach(a, x, i - 1, j - 1, d) {
            lemma_reach_diagonal(a, x, i - 1, j - 1, d);
        } else if i > 0 && reach(a, x, i - 1, j, d - 1) {
            lemma_reach_diagonal(a, x, i - 1, j, d - 1);
        } else {
            lemma_reach_diagonal(a, x, i, j - 1, d - 1);
        }
    }
}

/// A bound on the changed elements can be raised.
pub proof fn lemma_reach_monotone<V>(a: Seq<V>, x: Seq<V>, i: int, j: int, d: int, e: int)
    requires
        reach(a, x, i, j, d),
        d <= e,
    ensures
        reach(a, x, i, j, e),
    decreases i + j,
{
    if !(i == 0 && j == 0) {
        if i > 0 && j > 0 && a[i - 1] == x[j - 1] && reach(a, x, i - 1, j - 1, d) {
            lemma_reach_monotone(a, x, i - 1, j - 1, d, e);
        } else if i > 0 && reach(a, x, i - 1, j, d - 1) {
            lemma_reach_monotone(a, x, i - 1, j, d - 1, e - 1);
        } else {
            lemma_reach_monotone(a, x, i, j - 1, d - 1, e - 1);
        }
    }
}

/// In an edit list for a prefix, an extra expected element just before the
/// marker of the omitted actual elements comes right after the actual
/// element that stands at that point, when the actual input goes on there.
pub open spec fn prefix_keeps_actual<V, T: View<V = V>>(e: Seq<Edit<T>>, a: Seq<V>) -> bool {
    e.len() >= 2 && e[e.len() - 2] is ExtraExpected && actual_side(e).len() < a.len() ==> e.len()
        >= 3 && e[e.len() - 3] is ExtraActual
}

/// The number of elements changed on a path to a point has the parity of
/// its diagonal, so a bound of the other parity can be lowered by one.
pub proof fn lemma_reach_parity<V>(a: Seq<V>, x: Seq<V>, i: int, j: int, d: int)
    requires
        reach(a, x, i, j, d),
        (d - (i - j)) % 2 != 0,
    ensures
        reach(a, x, i, j, d - 1),
    decreases i + j,
{
    if i == 0 && j == 0 {
        assert(d >= 1);
    } else if i > 0 && j > 0 && a[i - 1] == x[j - 1] && reach(a, x, i - 1, j - 1, d) {
        lemma_reach_parity(a, x, i - 1, j - 1, d);
    } else if i > 0 && reach(a, x, i - 1, j, d - 1) {
        lemma_reach_parity(a, x, i - 1, j, d - 1);
    } else {
        lemma_reach_parity(a, x, i, j - 1, d - 1);
    }
}

/// A path to `i` and `j` ends in a run of `t` common elements after a
/// landing point.
pub proof fn lemma_reach_landing<V>(a: Seq<V>, x: Seq<V>, i: int, j: int, d: int) -> (t: int)
    requires
        reach(a, x, i, j, d),
    ensures
        0 <= t <= i,
        t <= j,
        landing(a, x, i - t, j - t, d),
        forall|s: int| i - t <= s < i ==> a[s] == x[s - (i - j)],
    decreases i + j,
{
    if i == 0 && j == 0 {
        0
    } else if i > 0 && j > 0 && a[i - 1] == x[j - 1] && reach(a, x, i - 1, j - 1, d) {
        let t0 = lemma_reach_landing(a, x, i - 1, j - 1, d);
        t0 + 1
    } else {
        0
    }
}

/// The path lies on diagonal `k` and its edits are a transcript of the
/// consumed parts of both inputs.
spec fn path_ok<V, T: View<V = V>>(p: Path<T>, k: int, a: Seq<V>, x: Seq<V>, d: int) -> bool {
    &&& p.actual_endpoint - p.expected_endpoint == k
    &&& p.actual_endpoint <= a.len() + d
    &&& p.expected_endpoint <= x.len() + d
    &&& actual_side(p.edits@) == a.take(min_nat(p.actual_endpoint as int, a.len() as int))
    &&& expected_side(p.edits@) == x.take(min_nat(p.expected_endpoint as int, x.len() as int))
    &&& no_additional(p.edits@)
    &&& change_count(p.edits@) <= d
    &&& p.actual_endpoint <= a.len() && p.expected_endpoint <= x.len() ==> change_count(p.edits@) == d
}

/// Whether some edit is not a common element.
fn has_non_both<T>(edits: &Vec<Edit<T>>) -> (r: bool)
    ensures
        r == !all_both(edits@),
{
    let mut i: usize = 0;
    while i < edits.len()
        invariant
            i <= edits@.len(),
            forall|j: int| 0 <= j < i ==> edits@[j] is Both,
        decreases edits@.len() - i,
    {
        match &edits[i] {
            Edit::Both(_) => {},
            _ => {
                return true;
            },
        }
        i = i + 1;
    }
    false
}

/// The paths of one round of the search: the path at index `j` lies on
/// diagonal `-round + 2 * j`.
spec fn paths_ok<V, T: View<V = V>>(paths: Seq<Path<T>>, round: int, a: Seq<V>, x: Seq<V>) -> bool {
    forall|j: int|
        0 <= j < paths.len() ==> #[trigger] path_good(paths[j], -round + 2 * j, a, x, round)
}

/// The path reaches at least as far along diagonal `k` as any path with at
/// most `d` changed elements.
spec fn path_far<V, T: View<V = V>>(p: Path<T>, k: int, a: Seq<V>, x: Seq<V>, d: int) -> bool {
    forall|i: int, j: int| i - j == k && #[trigger] reach(a, x, i, j, d) ==> i <= p.actual_endpoint
}

/// The path starts at least as far along diagonal `k` as any landing point
/// of a path with at most `d` changed elements.
spec fn path_lands<V, T: View<V = V>>(p: Path<T>, k: int, a: Seq<V>, x: Seq<V>, d: int) -> bool {
    forall|i: int, j: int| i - j == k && #[trigger] landing(a, x, i, j, d) ==> i <= p.actual_endpoint
}

/// How far `n` lies beyond `len`.
spec fn excess(n: int, len: int) -> int {
    n - min_nat(n, len)
}

/// The end of the path, cut back to the inputs, is reached with the
/// changes of the path less those that went beyond the inputs.
spec fn path_real<V, T: View<V = V>>(p: Path<T>, a: Seq<V>, x: Seq<V>, d: int) -> bool {
    reach(
        a,
        x,
        min_nat(p.actual_endpoint as int, a.len() as int),
        min_nat(p.expected_endpoint as int, x.len() as int),
        d - excess(p.actual_endpoint as int, a.len() as int) - excess(
            p.expected_endpoint as int,
            x.len() as int,
        ),
    )
}

/// A path of round `d` on diagonal `k` after it followed the common
/// elements.
spec fn path_good<V, T: View<V = V>>(p: Path<T>, k: int, a: Seq<V>, x: Seq<V>, d: int) -> bool {
    &&& path_ok(p, k, a, x, d)
    &&& path_far(p, k, a, x, d)
    &&& path_real(p, a, x, d)
}

/// A path of round `d` on diagonal `k` that starts at `px` reaches at least
/// as far as every landing point, when it starts one step further than the
/// parent paths of round `d - 1`.
proof fn lemma_lands<V, T: View<V = V>>(paths_last: Seq<Path<T>>, k: int, d: int, a: Seq<V>, x: Seq<V>, px: int)
    requires
        1 <= d,
        -d <= k <= d,
        (k + d) % 2 == 0,
        paths_last.len() == d,
        paths_ok(paths_last, d - 1, a, x),
        k > -d ==> px >= paths_last[(k + d - 2) / 2].actual_endpoint + 1,
        k < d ==> px >= paths_last[(k + d) / 2].actual_endpoint,
    ensures
        forall|i: int, j: int| i - j == k && #[trigger] landing(a, x, i, j, d) ==> i <= px,
{
    assert forall|i: int, j: int| i - j == k && #[trigger] landing(a, x, i, j, d) implies i <= px by {
        if i == 0 && j == 0 {
            if k > -d {
                assert(path_good(paths_last[(k + d - 2) / 2], -(d - 1) + 2 * ((k + d - 2) / 2), a, x, d - 1));
            } else {
                assert(path_good(paths_last[(k + d) / 2], -(d - 1) + 2 * ((k + d) / 2), a, x, d - 1));
            }
        } else if i > 0 && reach(a, x, i - 1, j, d - 1) {
            lemma_reach_diagonal(a, x, i - 1, j, d - 1);
            let idx = (k + d - 2) / 2;
            assert(path_good(paths_last[idx], -(d - 1) + 2 * idx, a, x, d - 1));
            assert(reach(a, x, i - 1, j, d - 1));
        } else {
            assert(j > 0 && reach(a, x, i, j - 1, d - 1));
            lemma_reach_diagonal(a, x, i, j - 1, d - 1);
            let idx = (k + d) / 2;
            assert(path_good(paths_last[idx], -(d - 1) + 2 * idx, a, x, d - 1));
            assert(reach(a, x, i, j - 1, d - 1));
        }
    }
}

/// The point where a path at `i` on diagonal `k` stops when it follows
/// the elements that both inputs have in common.
#[verifier::opaque]
pub open spec fn slide_end<T: View>(a: Seq<T>, x: Seq<T>, i: int, k: int) -> int
    decreases a.len() - i,
{
    if 0 <= i < a.len() && 0 <= i - k < x.len() && a[i]@ == x[i - k]@ {
        slide_end(a, x, i + 1, k)
    } else {
        i
    }
}

/// The common elements of `a` from `from` up to `to`, as edits.
pub open spec fn common_run<T>(a: Seq<T>, from: int, to: int) -> Seq<Edit<T>> {
    Seq::new((to - from) as nat, |t: int| Edit::Both(a[from + t]))
}

/// A path of the search: how far it consumed the actual input, and its
/// edits.
pub type SearchPath<T> = (int, Seq<Edit<T>>);

/// The path one step below `p`, a path on diagonal `k + 1`: it takes the
/// next expected element.
pub open spec fn expected_step<T>(p: SearchPath<T>, k: int, x: Seq<T>) -> SearchPath<T> {
    let y = p.0 - (k + 1);
    (p.0, if 0 <= y < x.len() {
        p.1.push(Edit::ExtraExpected(x[y]))
    } else {
        p.1
    })
}

/// The path one step to the right of `p`: it takes the next actual
/// element.
pub open spec fn actual_step<T>(p: SearchPath<T>, a: Seq<T>) -> SearchPath<T> {
    (p.0 + 1, if 0 <= p.0 < a.len() {
        p.1.push(Edit::ExtraActual(a[p.0]))
    } else {
        p.1
    })
}

/// Which parent the path of round `d` on diagonal `k` extends, when both
/// exist: the one that reaches further, and on a tie the path that takes
/// the next expected element in even rounds and the next actual element in
/// odd ones.
pub open spec fn takes_expected(d: int, k: int, plus: int, minus: int) -> bool {
    ||| (d % 2 == 0 && plus > minus)
    ||| (d % 2 == 1 && plus - (k + 1) >= minus - (k - 1))
}

/// The path of round `d` on diagonal `k` before it follows common
/// elements.
pub open spec fn search_start<T: View>(a: Seq<T>, x: Seq<T>, d: int, k: int) -> SearchPath<T>
    decreases d, 0int,
{
    if d <= 0 {
        (0, Seq::empty())
    } else if k <= -d {
        expected_step(search_path(a, x, d - 1, k + 1), k, x)
    } else if k >= d {
        actual_step(search_path(a, x, d - 1, k - 1), a)
    } else if takes_expected(d, k, search_path(a, x, d - 1, k + 1).0, search_path(a, x, d - 1, k - 1).0) {
        expected_step(search_path(a, x, d - 1, k + 1), k, x)
    } else {
        actual_step(search_path(a, x, d - 1, k - 1), a)
    }
}

/// The path of round `d` on diagonal `k` in Myers' search: one edit
/// further than the parent path of round `d - 1` that reaches furthest,
/// then through the common elements.
pub open spec fn search_path<T: View>(a: Seq<T>, x: Seq<T>, d: int, k: int) -> SearchPath<T>
    decreases d, 1int,
{
    let s = search_start(a, x, d, k);
    let e = slide_end(a, x, s.0, k);
    (e, s.1 + common_run(a, s.0, e))
}

/// The paths of round `d`, on diagonals `-d`, `-d + 2`, ..., `d`.
pub open spec fn round_paths<T: View>(a: Seq<T>, x: Seq<T>, d: int) -> Seq<SearchPath<T>> {
    Seq::new((d + 1) as nat, |j: int| search_path(a, x, d, -d + 2 * j))
}

/// Among the first `n` paths of round `d`, the last of those with the most
/// edits that consumed all of the expected input `x`.
pub open spec fn longest_reaching<T>(ps: Seq<SearchPath<T>>, d: int, xlen: int, n: int) -> Option<int>
    decreases n,
{
    if n <= 0 {
        None
    } else {
        let r = longest_reaching(ps, d, xlen, n - 1);
        let j = n - 1;
        if ps[j].0 - (-d + 2 * j) == xlen && (r is None || ps[j].1.len() >= ps[r->0].1.len()) {
            Some(j)
        } else {
            r
        }
    }
}

/// The edit list for a path that consumed all of the expected input, with
/// the rest of the actual input omitted: the actual element at the path's
/// end goes before a last extra expected element.
pub open spec fn prefix_result<T>(p: SearchPath<T>, a: Seq<T>) -> Seq<Edit<T>> {
    let e = p.1;
    let n = e.len();
    let kept = if n > 0 && e[n - 1] is ExtraExpected && 0 <= p.0 < a.len() {
        e.take(n - 1).push(Edit::ExtraActual(a[p.0])).push(e[n - 1])
    } else {
        e
    };
    kept.push(Edit::AdditionalActual)
}

/// What an edit list found by the search is reported as: `None` for equal
/// inputs, else the list.
pub open spec fn reported<T>(e: Seq<Edit<T>>) -> Option<Seq<Edit<T>>> {
    if all_both(e) {
        None
    } else {
        Some(e)
    }
}

/// The outcome of the search from round `d`, diagonal `k` on: `None` when
/// it gives up (unrelated inputs), `Some(None)` for equal inputs and
/// `Some(Some(e))` for the edit list `e`.
#[verifier::opaque]
pub open spec fn search<T: View>(a: Seq<T>, x: Seq<T>, mode: Mode, d: int, k: int) -> Option<Option<Seq<Edit<T>>>>
    decreases MAX_DISTANCE + 1 - d, d + 2 - k,
{
    if d < 0 || d > MAX_DISTANCE {
        None
    } else if k > d {
        let ps = round_paths(a, x, d);
        let pick = longest_reaching(ps, d, x.len() as int, d + 1);
        if mode is Prefix && pick is Some {
            Some(reported(prefix_result(ps[pick->0], a)))
        } else {
            search(a, x, mode, d + 1, -(d + 1))
        }
    } else {
        let p = search_path(a, x, d, k);
        if p.0 == a.len() && p.0 - k == x.len() {
            Some(if mode is Contains && !all_both(p.1) {
                Some(compressed_suffix(compressed_prefix(p.1)))
            } else {
                reported(p.1)
            })
        } else {
            search(a, x, mode, d, k + 2)
        }
    }
}

/// The edits with each element replaced by its view.
pub open spec fn edit_views<T: View>(e: Seq<Edit<T>>) -> Seq<Edit<T::V>> {
    e.map_values(|d: Edit<T>| edit_view(d))
}

/// The edit with its element replaced by its view.
pub open spec fn edit_view<T: View>(d: Edit<T>) -> Edit<T::V> {
    match d {
        Edit::ExtraActual(t) => Edit::ExtraActual(t@),
        Edit::ExtraExpected(t) => Edit::ExtraExpected(t@),
        Edit::Both(t) => Edit::Both(t@),
        Edit::AdditionalActual => Edit::AdditionalActual,
    }
}

/// The outcome of a search with each element replaced by its view.
pub open spec fn outcome_views<T: View>(o: Option<Option<Seq<Edit<T>>>>) -> Option<Option<Seq<Edit<T::V>>>> {
    match o {
        None => None,
        Some(None) => Some(None),
        Some(Some(e)) => Some(Some(edit_views(e))),
    }
}

proof fn lemma_slide_congr<W, T: View<V = W>, U: View<V = W>>(a: Seq<T>, x: Seq<T>, b: Seq<U>, y: Seq<U>, i: int, k: int)
    requires
        views(a) == views(b),
        views(x) == views(y),
    ensures
        slide_end(a, x, i, k) == slide_end(b, y, i, k),
    decreases a.len() - i,
{
    reveal(slide_end);
    assert(a.len() == views(a).len() && b.len() == views(b).len());
    assert(x.len() == views(x).len() && y.len() == views(y).len());
    if 0 <= i < a.len() && 0 <= i - k < x.len() {
        assert(a[i]@ == views(a)[i] && b[i]@ == views(b)[i]);
        assert(x[i - k]@ == views(x)[i - k] && y[i - k]@ == views(y)[i - k]);
        lemma_slide_congr(a, x, b, y, i + 1, k);
    }
}

proof fn lemma_slide_bounds<T: View>(a: Seq<T>, x: Seq<T>, i: int, k: int)
    requires
        0 <= i,
    ensures
        i <= slide_end(a, x, i, k),
        slide_end(a, x, i, k) > i ==> slide_end(a, x, i, k) <= a.len(),
    decreases a.len() - i,
{
    reveal(slide_end);
    if 0 <= i < a.len() && 0 <= i - k < x.len() && a[i]@ == x[i - k]@ {
        lemma_slide_bounds(a, x, i + 1, k);
    }
}

/// Searches on inputs with the same views find paths that agree in their
/// ends and in the views of their edits.
proof fn lemma_path_congr<W, T: View<V = W>, U: View<V = W>>(a: Seq<T>, x: Seq<T>, b: Seq<U>, y: Seq<U>, d: int, k: int)
    requires
        views(a) == views(b),
        views(x) == views(y),
    ensures
        search_start(a, x, d, k).0 == search_start(b, y, d, k).0,
        edit_views(search_start(a, x, d, k).1) == edit_views(search_start(b, y, d, k).1),
        search_path(a, x, d, k).0 == search_path(b, y, d, k).0,
        edit_views(search_path(a, x, d, k).1) == edit_views(search_path(b, y, d, k).1),
        search_path(a, x, d, k).0 >= 0,
    decreases d,
{
    assert(a.len() == views(a).len() && b.len() == views(b).len());
    assert(x.len() == views(x).len() && y.len() == views(y).len());
    if d > 0 {
        lemma_path_congr(a, x, b, y, d - 1, k + 1);
        lemma_path_congr(a, x, b, y, d - 1, k - 1);
        let pa = search_path(a, x, d - 1, k + 1);
        let pb = search_path(b, y, d - 1, k + 1);
        let ma = search_path(a, x, d - 1, k - 1);
        let mb = search_path(b, y, d - 1, k - 1);
        let ya = pa.0 - (k + 1);
        if 0 <= ya < x.len() {
            assert(x[ya]@ == views(x)[ya] && y[ya]@ == views(y)[ya]);
            assert(edit_views(pa.1.push(Edit::ExtraExpected(x[ya]))) =~= edit_views(pa.1).push(
                Edit::ExtraExpected(x[ya]@),
            ));
            assert(edit_views(pb.1.push(Edit::ExtraExpected(y[ya]))) =~= edit_views(pb.1).push(
                Edit::ExtraExpected(y[ya]@),
            ));
        }
        if 0 <= ma.0 < a.len() {
            assert(a[ma.0]@ == views(a)[ma.0] && b[ma.0]@ == views(b)[ma.0]);
            assert(edit_views(ma.1.push(Edit::ExtraActual(a[ma.0]))) =~= edit_views(ma.1).push(
                Edit::ExtraActual(a[ma.0]@),
            ));
            assert(edit_views(mb.1.push(Edit::ExtraActual(b[ma.0]))) =~= edit_views(mb.1).push(
                Edit::ExtraActual(b[ma.0]@),
            ));
        }
    }
    let sa = search_start(a, x, d, k);
    let sb = search_start(b, y, d, k);
    assert(sa.0 >= 0);
    lemma_slide_congr(a, x, b, y, sa.0, k);
    lemma_slide_bounds(a, x, sa.0, k);
    let e = slide_end(a, x, sa.0, k);
    assert forall|s: int| sa.0 <= s < e implies #[trigger] a[s]@ == b[s]@ by {
        lemma_slide_run(a, x, sa.0, k, s);
        assert(a[s]@ == views(a)[s] && b[s]@ == views(b)[s]);
    }
    let ra = common_run(a, sa.0, e);
    let rb = common_run(b, sb.0, e);
    assert(edit_views(ra) =~= edit_views(rb)) by {
        assert forall|t: int| 0 <= t < ra.len() implies edit_views(ra)[t] == edit_views(rb)[t] by {
            assert(a[sa.0 + t]@ == b[sa.0 + t]@);
        }
    }
    assert(edit_views(sa.1 + ra) =~= edit_views(sa.1) + edit_views(ra));
    assert(edit_views(sb.1 + rb) =~= edit_views(sb.1) + edit_views(rb));
}

/// The elements that a path passes while it follows common elements lie
/// within the actual input.
proof fn lemma_slide_run<T: View>(a: Seq<T>, x: Seq<T>, i: int, k: int, s: int)
    requires
        0 <= i <= s < slide_end(a, x, i, k),
    ensures
        0 <= s < a.len(),
    decreases a.len() - i,
{
    reveal(slide_end);
    if 0 <= i < a.len() && 0 <= i - k < x.len() && a[i]@ == x[i - k]@ {
        if s > i {
            lemma_slide_run(a, x, i + 1, k, s);
        }
    }
}

/// The paths agree in their ends and in their numbers of edits.
spec fn paths_agree<T, U>(ps: Seq<SearchPath<T>>, qs: Seq<SearchPath<U>>) -> bool {
    &&& ps.len() == qs.len()
    &&& forall|j: int| 0 <= j < ps.len() ==> #[trigger] ps[j].0 == qs[j].0 && ps[j].1.len() == qs[j].1.len()
}

proof fn lemma_longest_congr<T, U>(ps: Seq<SearchPath<T>>, qs: Seq<SearchPath<U>>, d: int, xlen: int, n: int)
    requires
        paths_agree(ps, qs),
        n <= ps.len(),
    ensures
        longest_reaching(ps, d, xlen, n) == longest_reaching(qs, d, xlen, n),
    decreases n,
{
    if n > 0 {
        lemma_longest_congr(ps, qs, d, xlen, n - 1);
        lemma_longest_in_range(ps, d, xlen, n - 1);
        let r = longest_reaching(ps, d, xlen, n - 1);
        assert(ps[n - 1].0 == qs[n - 1].0);
        if r is Some {
            assert(ps[r->0].0 == qs[r->0].0);
        }
    }
}

proof fn lemma_first_kept_views<T: View>(e: Seq<Edit<T>>, from: int)
    requires
        0 <= from,
    ensures
        first_kept(edit_views(e), from) == first_kept(e, from),
    decreases e.len() - from,
{
    if from < e.len() {
        assert(edit_views(e)[from] == edit_view(e[from]));
        lemma_first_kept_views(e, from + 1);
    }
}

proof fn lemma_last_kept_end_views<T: View>(e: Seq<Edit<T>>, end: int)
    requires
        end <= e.len(),
    ensures
        last_kept_end(edit_views(e), end) == last_kept_end(e, end),
    decreases end,
{
    if end > 0 {
        assert(edit_views(e)[end - 1] == edit_view(e[end - 1]));
        lemma_last_kept_end_views(e, end - 1);
    }
}

proof fn lemma_compress_views<T: View>(e: Seq<Edit<T>>)
    ensures
        edit_views(compressed_suffix(compressed_prefix(e))) == compressed_suffix(compressed_prefix(edit_views(e))),
{
    lemma_first_kept_views(e, 0);
    let f = first_kept(e, 0);
    let c = compressed_prefix(e);
    if f < e.len() {
        lemma_first_kept_bounds(e, 0);
        assert(edit_views(e)[f] == edit_view(e[f]));
        let start = if f > 0 && e[f] is ExtraExpected {
            f - 1
        } else {
            f
        };
        assert(edit_views(c) =~= compressed_prefix(edit_views(e)));
    } else {
        lemma_first_kept_bounds(e, 0);
        assert(edit_views(c) =~= compressed_prefix(edit_views(e)));
    }
    let cv = edit_views(c);
    lemma_last_kept_end_views(c, c.len() as int);
    lemma_last_kept_end_bounds(c, c.len() as int);
    let en = last_kept_end(c, c.len() as int);
    if en > 0 {
        assert(cv[en - 1] == edit_view(c[en - 1]));
    }
    assert(edit_views(compressed_suffix(c)) =~= compressed_suffix(cv));
}

proof fn lemma_first_kept_bounds<T>(e: Seq<Edit<T>>, from: int)
    requires
        0 <= from,
    ensures
        from <= first_kept(e, from) <= e.len() || (from > e.len() && first_kept(e, from) == e.len()),
        first_kept(e, from) < e.len() ==> !(e[first_kept(e, from)] is ExtraActual),
    decreases e.len() - from,
{
    if from < e.len() && e[from] is ExtraActual {
        lemma_first_kept_bounds(e, from + 1);
    }
}

proof fn lemma_last_kept_end_bounds<T>(e: Seq<Edit<T>>, end: int)
    requires
        0 <= end <= e.len(),
    ensures
        0 <= last_kept_end(e, end) <= end,
    decreases end,
{
    if end > 0 && e[end - 1] is ExtraActual {
        lemma_last_kept_end_bounds(e, end - 1);
    }
}

proof fn lemma_prefix_result_congr<W, T: View<V = W>, U: View<V = W>>(
    pa: SearchPath<T>,
    a: Seq<T>,
    pb: SearchPath<U>,
    b: Seq<U>,
)
    requires
        views(a) == views(b),
        pa.0 == pb.0,
        edit_views(pa.1) == edit_views(pb.1),
    ensures
        edit_views(prefix_result(pa, a)) == edit_views(prefix_result(pb, b)),
{
    assert(a.len() == views(a).len() && b.len() == views(b).len());
    let ea = pa.1;
    let eb = pb.1;
    let n = ea.len();
    assert(eb.len() == edit_views(eb).len());
    assert(ea.len() == edit_views(ea).len());
    if n > 0 {
        assert(edit_views(ea)[n - 1] == edit_view(ea[n - 1]));
        assert(edit_views(eb)[n - 1] == edit_view(eb[n - 1]));
    }
    if n > 0 && ea[n - 1] is ExtraExpected && 0 <= pa.0 < a.len() {
        assert(a[pa.0]@ == views(a)[pa.0] && b[pa.0]@ == views(b)[pa.0]);
        assert(edit_views(ea.take(n - 1)) =~= edit_views(ea).take(n - 1));
        assert(edit_views(eb.take(n - 1)) =~= edit_views(eb).take(n - 1));
        assert(edit_views(ea.take(n - 1).push(Edit::ExtraActual(a[pa.0])).push(ea[n - 1]).push(
            Edit::AdditionalActual,
        )) =~= edit_views(ea.take(n - 1)).push(Edit::ExtraActual(a[pa.0]@)).push(edit_view(ea[n - 1])).push(
            Edit::AdditionalActual,
        ));
        assert(edit_views(eb.take(n - 1).push(Edit::ExtraActual(b[pa.0])).push(eb[n - 1]).push(
            Edit::AdditionalActual,
        )) =~= edit_views(eb.take(n - 1)).push(Edit::ExtraActual(b[pa.0]@)).push(edit_view(eb[n - 1])).push(
            Edit::AdditionalActual,
        ));
    } else {
        assert(edit_views(ea.push(Edit::AdditionalActual)) =~= edit_views(ea).push(Edit::AdditionalActual));
        assert(edit_views(eb.push(Edit::AdditionalActual)) =~= edit_views(eb).push(Edit::AdditionalActual));
    }
}

proof fn lemma_all_both_views<T: View>(e: Seq<Edit<T>>)
    ensures
        all_both(edit_views(e)) == all_both(e),
{
    assert forall|i: int| 0 <= i < e.len() implies (edit_views(e)[i] is Both <==> e[i] is Both) by {
        assert(edit_views(e)[i] == edit_view(e[i]));
    }
    if !all_both(e) {
        let i = choose|i: int| 0 <= i < e.len() && !(e[i] is Both);
        assert(!(edit_views(e)[i] is Both));
    }
}

/// Searches on inputs with the same views have the same outcome, up to the
/// views of the elements in the edits: the search only compares views.
pub proof fn lemma_search_congr<W, T: View<V = W>, U: View<V = W>>(
    a: Seq<T>,
    x: Seq<T>,
    b: Seq<U>,
    y: Seq<U>,
    mode: Mode,
    d: int,
    k: int,
)
    requires
        views(a) == views(b),
        views(x) == views(y),
    ensures
        outcome_views(search(a, x, mode, d, k)) == outcome_views(search(b, y, mode, d, k)),
    decreases MAX_DISTANCE + 1 - d, d + 2 - k,
{
    reveal(search);
    assert(a.len() == views(a).len() && b.len() == views(b).len());
    assert(x.len() == views(x).len() && y.len() == views(y).len());
    if d < 0 || d > MAX_DISTANCE {
    } else if k > d {
        let ps = round_paths(a, x, d);
        let qs = round_paths(b, y, d);
        assert forall|j: int| 0 <= j < ps.len() implies #[trigger] ps[j].0 == qs[j].0 && ps[j].1.len() == qs[j].1.len() by {
            lemma_path_congr(a, x, b, y, d, -d + 2 * j);
            assert(ps[j].1.len() == edit_views(ps[j].1).len());
            assert(qs[j].1.len() == edit_views(qs[j].1).len());
        }
        assert(paths_agree(ps, qs));
        lemma_longest_congr(ps, qs, d, x.len() as int, d + 1);
        let pick = longest_reaching(ps, d, x.len() as int, d + 1);
        if mode is Prefix && pick is Some {
            let j = pick->0;
            lemma_longest_in_range(ps, d, x.len() as int, d + 1);
            lemma_path_congr(a, x, b, y, d, -d + 2 * j);
            lemma_prefix_result_congr(ps[j], a, qs[j], b);
            lemma_all_both_views(prefix_result(ps[j], a));
            lemma_all_both_views(prefix_result(qs[j], b));
        } else {
            lemma_search_congr(a, x, b, y, mode, d + 1, -(d + 1));
        }
    } else {
        lemma_path_congr(a, x, b, y, d, k);
        let p = search_path(a, x, d, k);
        let q = search_path(b, y, d, k);
        if p.0 == a.len() && p.0 - k == x.len() {
            lemma_all_both_views(p.1);
            lemma_all_both_views(q.1);
            lemma_compress_views(p.1);
            lemma_compress_views(q.1);
        } else {
            lemma_search_congr(a, x, b, y, mode, d, k + 2);
        }
    }
}

proof fn lemma_longest_in_range<T>(ps: Seq<SearchPath<T>>, d: int, xlen: int, n: int)
    requires
        n <= ps.len(),
    ensures
        longest_reaching(ps, d, xlen, n) matches Some(j) ==> 0 <= j < n,
    decreases n,
{
    if n > 0 {
        lemma_longest_in_range(ps, d, xlen, n - 1);
    }
}

/// What `edit_list` returns, as the search gives it.
pub open spec fn outcome<T>(r: Difference<T>) -> Option<Option<Seq<Edit<T>>>> {
    match r {
        Difference::Equal => Some(None),
        Difference::Editable(e) => Some(Some(e@)),
        Difference::Unrelated => None,
    }
}

/// The path `p` is the path `sp` of the search.
pub open spec fn path_is<T>(p: Path<T>, sp: SearchPath<T>) -> bool {
    p.actual_endpoint == sp.0 && p.edits@ == sp.1
}

/// The paths are the first paths of round `d` of the search.
pub open spec fn paths_are<T: View>(paths: Seq<Path<T>>, a: Seq<T>, x: Seq<T>, d: int) -> bool {
    forall|j: int| 0 <= j < paths.len() ==> #[trigger] path_is(paths[j], search_path(a, x, d, -d + 2 * j))
}

/// The path of round `distance` on diagonal `k`, before it follows common
/// elements: one edit further than a path of the previous round.
#[verifier::rlimit(60)]
fn start_path<T: Token>(
    paths_last: &Vec<Path<T>>,
    k: i32,
    distance: i32,
    actual: &[T],
    expected: &[T],
) -> (p: Path<T>)
    requires
        0 <= distance <= MAX_DISTANCE,
        -distance <= k <= distance,
        (k + distance) % 2 == 0,
        actual@.len() < i32::MAX,
        expected@.len() < i32::MAX,
        paths_last@.len() == distance,
        paths_ok(paths_last@, distance - 1, views(actual@), views(expected@)),
        paths_are(paths_last@, actual@, expected@, distance - 1),
    ensures
        p.actual_endpoint == search_start(actual@, expected@, distance as int, k as int).0,
        p.edits@ == search_start(actual@, expected@, distance as int, k as int).1,
        path_ok(p, k as int, views(actual@), views(expected@), distance as int),
        path_lands(p, k as int, views(actual@), views(expected@), distance as int),
        path_real(p, views(actual@), views(expected@), distance as int),
        distance == 0 ==> p.actual_endpoint == 0 && p.edits@ == Seq::<Edit<T>>::empty(),
{
    let ghost a = views(actual@);
    let ghost x = views(expected@);
    let ghost kk = k as int;
    let has_minus = k > -distance;
    let has_plus = k < distance;
    if !has_minus && !has_plus {
        // This is the first (outer) round.
        let p = Path::origin();
        proof {
            assert(change_count(p.edits@) == 0);
            assert(actual_side(p.edits@) =~= a.take(0));
            assert(expected_side(p.edits@) =~= x.take(0));
            assert(reach(a, x, 0, 0, 0));
                        assert forall|i: int, j: int| i - j == kk && #[trigger] landing(a, x, i, j, distance as int) implies i
                <= p.actual_endpoint by {}
        }
        return p;
    }
    let take_plus = if !has_minus {
        // k = -distance: there is no previous parent path.
        true
    } else if !has_plus {
        // k = distance: there is no next parent path.
        false
    } else {
        let minus = &paths_last[index_of_k(k - 1, -distance + 1)];
        let plus = &paths_last[index_of_k(k + 1, -distance + 1)];
        // Alternate between preferring the actual and the expected side, so
        // that the elements of differing blocks interleave.
        (distance % 2 == 0 && plus.actual_endpoint > minus.actual_endpoint) || (distance % 2 == 1
            && plus.expected_endpoint >= minus.expected_endpoint)
    };
    proof {
                let dd = distance as int;
        if has_minus && has_plus {
            let im = (kk + distance - 2) / 2;
            let ip = (kk + distance) / 2;
            assert(path_is(paths_last@[im], search_path(actual@, expected@, dd - 1, -(dd - 1) + 2 * im)));
            assert(path_is(paths_last@[ip], search_path(actual@, expected@, dd - 1, -(dd - 1) + 2 * ip)));
            assert(-(dd - 1) + 2 * ip == kk + 1);
            assert(-(dd - 1) + 2 * im == kk - 1);
            assert(paths_last@[ip].actual_endpoint == search_path(actual@, expected@, dd - 1, kk + 1).0);
            assert(paths_last@[im].actual_endpoint == search_path(actual@, expected@, dd - 1, kk - 1).0);
            assert(path_good(paths_last@[im], -(distance - 1) + 2 * im, a, x, distance - 1));
            assert(path_good(paths_last@[ip], -(distance - 1) + 2 * ip, a, x, distance - 1));
            assert(paths_last@[ip].expected_endpoint == paths_last@[ip].actual_endpoint - (kk + 1));
            assert(paths_last@[im].expected_endpoint == paths_last@[im].actual_endpoint - (kk - 1));
            assert(take_plus == takes_expected(
                dd,
                kk,
                search_path(actual@, expected@, dd - 1, kk + 1).0,
                search_path(actual@, expected@, dd - 1, kk - 1).0,
            ));
            assert(path_good(paths_last@[im], -(distance - 1) + 2 * im, a, x, distance - 1));
            assert(path_good(paths_last@[ip], -(distance - 1) + 2 * ip, a, x, distance - 1));
            if take_plus {
                assert(paths_last@[ip].actual_endpoint >= paths_last@[im].actual_endpoint + 1);
            } else {
                assert(paths_last@[im].actual_endpoint + 1 >= paths_last@[ip].actual_endpoint);
            }
        }
    }
    if take_plus {
        let idx = index_of_k(k + 1, -distance + 1);
        let plus = &paths_last[idx];
        proof {
            assert(2 * idx == kk + distance);
            assert(path_is(paths_last@[idx as int], search_path(actual@, expected@, distance - 1, -(distance - 1)
                + 2 * idx)));
            assert(path_good(paths_last@[idx as int], -(distance - 1) + 2 * idx, a, x, distance - 1));
        }
        let mut p = plus.duplicate();
        if plus.expected_endpoint < expected.len() {
            let ed = Edit::ExtraExpected(expected[plus.expected_endpoint]);
            let ghost before = p.edits@;
            p.edits.push(ed);
            proof {
                lemma_sides_push(before, ed);
                lemma_change_count_push(before, ed);
                let m = plus.expected_endpoint as int;
                assert(x.take(m + 1) =~= x.take(m).push(x[m]));
                assert(expected_side(p.edits@) =~= x.take(m + 1));
                assert(actual_side(p.edits@) =~= actual_side(before));
            }
        }
        p.expected_endpoint = plus.expected_endpoint + 1;
        assert(no_additional(p.edits@));
        assert(p.actual_endpoint - p.expected_endpoint == kk);
        assert(actual_side(p.edits@) == a.take(min_nat(p.actual_endpoint as int, a.len() as int)));
        assert(expected_side(p.edits@) == x.take(min_nat(p.expected_endpoint as int, x.len() as int)));
        proof {
            lemma_lands(paths_last@, kk, distance as int, a, x, p.actual_endpoint as int);
            let cx = min_nat(plus.actual_endpoint as int, a.len() as int);
            let ex = excess(plus.actual_endpoint as int, a.len() as int);
            let ey = excess(plus.expected_endpoint as int, x.len() as int);
            if (plus.expected_endpoint as int) < x.len() {
                assert(reach(a, x, cx, plus.expected_endpoint as int, distance - 1 - ex - ey));
                assert(reach(a, x, cx, plus.expected_endpoint + 1, distance - ex));
            }
                        let sp = search_path(actual@, expected@, distance - 1, kk + 1);
            assert(-(distance - 1) + 2 * idx == kk + 1);
            assert(plus.actual_endpoint == sp.0 && plus.edits@ == sp.1);
            assert(distance > 0);
            if has_minus {
                assert(has_plus);
                let im = (kk + distance - 2) / 2;
                assert(path_is(paths_last@[im], search_path(actual@, expected@, distance - 1, -(distance - 1) + 2 * im)));
                assert(-(distance - 1) + 2 * im == kk - 1);
                assert(path_good(paths_last@[im], -(distance - 1) + 2 * im, a, x, distance - 1));
                assert(path_good(paths_last@[idx as int], -(distance - 1) + 2 * idx, a, x, distance - 1));
                assert(takes_expected(
                    distance as int,
                    kk,
                    sp.0,
                    search_path(actual@, expected@, distance - 1, kk - 1).0,
                ));
            }
            assert(search_start(actual@, expected@, distance as int, kk) == expected_step(sp, kk, expected@));
            let y = sp.0 - (kk + 1);
            assert(y == plus.expected_endpoint);
            if 0 <= y < expected@.len() {
                assert(p.edits@ == sp.1.push(Edit::ExtraExpected(expected@[y])));
            } else {
                assert(p.edits@ == sp.1);
            }
        }
        p
    } else {
        let idx = index_of_k(k - 1, -distance + 1);
        let minus = &paths_last[idx];
        proof {
            assert(2 * idx == kk + distance - 2);
            assert(path_is(paths_last@[idx as int], search_path(actual@, expected@, distance - 1, -(distance - 1)
                + 2 * idx)));
            assert(path_good(paths_last@[idx as int], -(distance - 1) + 2 * idx, a, x, distance - 1));
        }
        let mut p = minus.extend_actual_endpoint();
        if minus.actual_endpoint < actual.len() {
            let ed = Edit::ExtraActual(actual[minus.actual_endpoint]);
            let ghost before = p.edits@;
            p.edits.push(ed);
            proof {
                lemma_sides_push(before, ed);
                lemma_change_count_push(before, ed);
                let m = minus.actual_endpoint as int;
                assert(a.take(m + 1) =~= a.take(m).push(a[m]));
                assert(actual_side(p.edits@) =~= a.take(m + 1));
                assert(expected_side(p.edits@) =~= expected_side(before));
            }
        }
        assert(no_additional(p.edits@));
        assert(p.actual_endpoint - p.expected_endpoint == kk);
        assert(actual_side(p.edits@) == a.take(min_nat(p.actual_endpoint as int, a.len() as int)));
        assert(expected_side(p.edits@) == x.take(min_nat(p.expected_endpoint as int, x.len() as int)));
        proof {
            lemma_lands(paths_last@, kk, distance as int, a, x, p.actual_endpoint as int);
            let cy = min_nat(minus.expected_endpoint as int, x.len() as int);
            let ex = excess(minus.actual_endpoint as int, a.len() as int);
            let ey = excess(minus.expected_endpoint as int, x.len() as int);
            if (minus.actual_endpoint as int) < a.len() {
                assert(reach(a, x, minus.actual_endpoint as int, cy, distance - 1 - ex - ey));
                assert(reach(a, x, minus.actual_endpoint + 1, cy, distance - ey));
            }
                        let sp = search_path(actual@, expected@, distance - 1, kk - 1);
            assert(-(distance - 1) + 2 * idx == kk - 1);
            assert(minus.actual_endpoint == sp.0 && minus.edits@ == sp.1);
            assert(distance > 0);
            if has_plus {
                assert(has_minus);
                let ip = (kk + distance) / 2;
                assert(path_is(paths_last@[ip], search_path(actual@, expected@, distance - 1, -(distance - 1) + 2 * ip)));
                assert(-(distance - 1) + 2 * ip == kk + 1);
                assert(path_good(paths_last@[ip], -(distance - 1) + 2 * ip, a, x, distance - 1));
                assert(path_good(paths_last@[idx as int], -(distance - 1) + 2 * idx, a, x, distance - 1));
                assert(!takes_expected(
                    distance as int,
                    kk,
                    search_path(actual@, expected@, distance - 1, kk + 1).0,
                    sp.0,
                ));
            }
            assert(search_start(actual@, expected@, distance as int, kk) == actual_step(sp, actual@));
            if 0 <= sp.0 < actual@.len() {
                assert(p.edits@ == sp.1.push(Edit::ExtraActual(actual@[sp.0])));
            } else {
                assert(p.edits@ == sp.1);
            }
        }
        p
    }
}

/// Extends `path` along its diagonal through the elements that both inputs
/// have in common.
fn follow_diagonal<T: Token>(path: &mut Path<T>, k: i32, distance: i32, actual: &[T], expected: &[T])
    requires
        0 <= distance <= MAX_DISTANCE,
        actual@.len() < i32::MAX,
        expected@.len() < i32::MAX,
        path_ok(*old(path), k as int, views(actual@), views(expected@), distance as int),
        path_lands(*old(path), k as int, views(actual@), views(expected@), distance as int),
        path_real(*old(path), views(actual@), views(expected@), distance as int),
    ensures
        path_good(*final(path), k as int, views(actual@), views(expected@), distance as int),
        final(path).actual_endpoint >= old(path).actual_endpoint,
        final(path).actual_endpoint < actual@.len() && final(path).expected_endpoint
            < expected@.len() ==> actual@[final(path).actual_endpoint as int]@
            != expected@[final(path).expected_endpoint as int]@,
        all_both(old(path).edits@) ==> all_both(final(path).edits@),
        old(path).actual_endpoint <= actual@.len() ==> final(path).actual_endpoint
            <= actual@.len(),
        final(path).actual_endpoint == slide_end(actual@, expected@, old(path).actual_endpoint as int, k as int),
        final(path).edits@ == old(path).edits@ + common_run(
            actual@,
            old(path).actual_endpoint as int,
            final(path).actual_endpoint as int,
        ),
{
    let ghost a = views(actual@);
    let ghost x = views(expected@);
    let ghost kk = k as int;
    let ghost start_all_both = all_both(path.edits@);
    let ghost start_in = path.actual_endpoint <= actual@.len();
    let ghost start_ae = path.actual_endpoint;
    let ghost start_edits = path.edits@;
    let ghost start_inside = path.actual_endpoint <= actual@.len() && path.expected_endpoint
        <= expected@.len();
    proof {
        reveal(slide_end);
        assert(start_edits + common_run(actual@, start_ae as int, start_ae as int) =~= start_edits);
    }
    let alen = actual.len();
    let elen = expected.len();
    let mut actual_endpoint = path.actual_endpoint;
    let mut expected_endpoint = (path.actual_endpoint as i64 - k as i64) as usize;
    while actual_endpoint < alen && expected_endpoint < elen && actual[actual_endpoint].same(
        &expected[expected_endpoint],
    )
        invariant
            0 <= distance <= MAX_DISTANCE,
            alen == actual@.len(),
            elen == expected@.len(),
            a == views(actual@),
            x == views(expected@),
            alen < i32::MAX,
            elen < i32::MAX,
            actual_endpoint - expected_endpoint == kk,
            actual_endpoint >= start_ae,
            actual_endpoint <= alen + distance,
            expected_endpoint <= elen + distance,
            actual_side(path.edits@) == a.take(min_nat(actual_endpoint as int, alen as int)),
            expected_side(path.edits@) == x.take(min_nat(expected_endpoint as int, elen as int)),
            no_additional(path.edits@),
            change_count(path.edits@) <= distance,
            start_all_both ==> all_both(path.edits@),
            start_in ==> actual_endpoint <= alen,
            slide_end(actual@, expected@, actual_endpoint as int, kk) == slide_end(
                actual@,
                expected@,
                start_ae as int,
                kk,
            ),
            path.edits@ == start_edits + common_run(actual@, start_ae as int, actual_endpoint as int),
            start_inside ==> change_count(path.edits@) == distance,
            !start_inside ==> actual_endpoint == start_ae && !(actual_endpoint < alen && expected_endpoint
                < elen),
            reach(
                a,
                x,
                min_nat(actual_endpoint as int, alen as int),
                min_nat(expected_endpoint as int, elen as int),
                distance - excess(actual_endpoint as int, alen as int) - excess(
                    expected_endpoint as int,
                    elen as int,
                ),
            ),
        decreases alen - actual_endpoint,
    {
        proof {
            assert(a[actual_endpoint as int] == actual@[actual_endpoint as int]@);
            assert(x[expected_endpoint as int] == expected@[expected_endpoint as int]@);
            assert(reach(a, x, actual_endpoint + 1, expected_endpoint + 1, distance as int));
        }
        let ghost before = path.edits@;
        let ed = Edit::Both(actual[actual_endpoint]);
        path.edits.push(ed);
        proof {
            lemma_sides_push(before, ed);
            lemma_change_count_push(before, ed);
            assert(a.take(actual_endpoint + 1) =~= a.take(actual_endpoint as int).push(
                a[actual_endpoint as int],
            ));
            assert(x.take(expected_endpoint + 1) =~= x.take(expected_endpoint as int).push(
                x[expected_endpoint as int],
            ));
        }
        proof {
            reveal(slide_end);
            assert(actual@[actual_endpoint as int]@ == expected@[actual_endpoint - kk]@);
            assert(slide_end(actual@, expected@, actual_endpoint as int, kk) == slide_end(
                actual@,
                expected@,
                actual_endpoint + 1,
                kk,
            ));
            assert(start_edits + common_run(actual@, start_ae as int, actual_endpoint + 1) =~= (start_edits
                + common_run(actual@, start_ae as int, actual_endpoint as int)).push(ed));
        }
        actual_endpoint = actual_endpoint + 1;
        expected_endpoint = expected_endpoint + 1;
    }
    proof {
        reveal(slide_end);
        if actual_endpoint < alen && expected_endpoint < elen {
            assert(actual@[actual_endpoint as int]@ != expected@[actual_endpoint - kk]@);
        }
        assert(slide_end(actual@, expected@, actual_endpoint as int, kk) == actual_endpoint);
    }
    path.actual_endpoint = actual_endpoint;
    path.expected_endpoint = expected_endpoint;
    proof {
        let fin = actual_endpoint as int;
        assert forall|i: int, j: int| i - j == kk && #[trigger] reach(a, x, i, j, distance as int) implies i
            <= fin by {
            let t = lemma_reach_landing(a, x, i, j, distance as int);
            assert(landing(a, x, i - t, j - t, distance as int));
            if fin < i {
                assert(a[fin] == x[fin - kk]);
                assert(a[fin] == actual@[fin]@);
                assert(x[fin - kk] == expected@[fin - kk]@);
            }
        }
    }
}

/// The edit list for a path which consumed all of the expected input, with
/// the rest of the actual input omitted.
fn prefix_edits<T: Token>(path: Path<T>, k: i32, distance: i32, actual: &[T], expected: &[T]) -> (r: Vec<
    Edit<T>,
>)
    requires
        0 <= distance <= MAX_DISTANCE,
        path_ok(path, k as int, views(actual@), views(expected@), distance as int),
        path.expected_endpoint == expected@.len(),
    ensures
        prefix_transcript(r@, views(actual@), views(expected@)),
        change_count(r@) <= distance + 1,
        prefix_keeps_actual(r@, views(actual@)),
        r@ == prefix_result((path.actual_endpoint as int, path.edits@), actual@),
        actual_side(r@).len() - change_count(r@) == min_nat(path.actual_endpoint as int, actual@.len() as int)
            - change_count(path.edits@),
        change_count(r@) <= change_count(path.edits@) + 1,
        actual_side(r@).len() >= min_nat(path.actual_endpoint as int, actual@.len() as int),
{
    let ghost a = views(actual@);
    let ghost x = views(expected@);
    let ghost e0 = path.edits@;
    let mut edits = path.edits;
    assert(x.take(expected@.len() as int) == x);
    let n = edits.len();
    let ghost mut mm: int = min_nat(path.actual_endpoint as int, actual@.len() as int);
    if n > 0 {
        if let Edit::ExtraExpected(_) = edits[n - 1] {
            if path.actual_endpoint < actual.len() {
                // The edit from the actual comes before the corresponding one
                // from the expected.
                let ghost before = edits@;
                let ed = Edit::ExtraActual(actual[path.actual_endpoint]);
                edits.insert(n - 1, ed);
                proof {
                    let m = path.actual_endpoint as int;
                    let pre = before.take(n - 1);
                    let lst = before.last();
                    assert(edits@ =~= pre + seq![ed] + seq![lst]);
                    assert(before =~= pre + seq![lst]);
                    lemma_sides_concat(pre, seq![lst]);
                    lemma_sides_concat(pre + seq![ed], seq![lst]);
                    lemma_sides_concat(pre, seq![ed]);
                    lemma_change_count_concat(pre, seq![lst]);
                    lemma_change_count_concat(pre + seq![ed], seq![lst]);
                    lemma_change_count_concat(pre, seq![ed]);
                    lemma_change_count_push(Seq::<Edit<T>>::empty(), ed);
                    lemma_change_count_push(Seq::<Edit<T>>::empty(), lst);
                    lemma_sides_push(Seq::<Edit<T>>::empty(), ed);
                    lemma_sides_push(Seq::<Edit<T>>::empty(), lst);
                    assert(Seq::<Edit<T>>::empty().push(ed) =~= seq![ed]);
                    assert(Seq::<Edit<T>>::empty().push(lst) =~= seq![lst]);
                    assert(actual_side(Seq::<Edit<T>>::empty()) =~= Seq::<T::V>::empty());
                    assert(expected_side(Seq::<Edit<T>>::empty()) =~= Seq::<T::V>::empty());
                    assert(a.take(m + 1) =~= a.take(m).push(a[m]));
                    assert forall|i: int| 0 <= i < edits@.len() implies !(
                    edits@[i] is AdditionalActual) by {
                        if i < n - 1 {
                            assert(edits@[i] == before[i]);
                        } else if i > n - 1 {
                            assert(edits@[i] == before[n - 1]);
                        }
                    }
                    mm = m + 1;
                }
            }
        }
    }
    assert(0 <= mm <= a.len() && actual_side(edits@) == a.take(mm));
    proof {
        let n0 = e0.len();
        if n0 > 0 && e0[n0 - 1] is ExtraExpected && path.actual_endpoint < actual@.len() {
            assert(edits@ =~= e0.take(n0 - 1).push(Edit::ExtraActual(actual@[path.actual_endpoint as int])).push(
                e0[n0 - 1],
            ));
        } else {
            assert(edits@ == e0);
        }
    }
    let ghost before = edits@;
    edits.push(Edit::AdditionalActual);
    proof {
        lemma_sides_push(before, Edit::<T>::AdditionalActual);
        lemma_change_count_push(before, Edit::<T>::AdditionalActual);
        assert(edits@.drop_last() =~= before);
        assert(actual_side(edits@) == a.take(mm));
        if before.len() >= 1 {
            assert(edits@[edits@.len() - 2] == before.last());
            if before.len() >= 2 && before.last() is ExtraExpected && mm < a.len() {
                assert(edits@[edits@.len() - 3] == before[before.len() - 2]);
            }
        }
    }
    edits
}

/// After a round `d` in which no path reached the end of both inputs, the
/// inputs are more than `d` changes apart.
proof fn lemma_end_not_reached<V, T: View<V = V>>(paths: Seq<Path<T>>, d: int, a: Seq<V>, x: Seq<V>)
    requires
        0 <= d,
        paths.len() == d + 1,
        paths_ok(paths, d, a, x),
        forall|dd: int| 0 <= dd < d ==> !#[trigger] within_edits(a, x, dd),
        forall|j: int|
            0 <= j < paths.len() ==> !(#[trigger] paths[j].actual_endpoint == a.len()
                && paths[j].expected_endpoint == x.len()),
    ensures
        !within_edits(a, x, d),
{
    let n = a.len() as int;
    let m = x.len() as int;
    if reach(a, x, n, m, d) {
        lemma_reach_diagonal(a, x, n, m, d);
        let k = n - m;
        if (d - k) % 2 != 0 {
            lemma_reach_parity(a, x, n, m, d);
            if d - 1 >= 0 {
                assert(within_edits(a, x, d - 1));
            }
        } else {
            let j = (k + d) / 2;
            assert(path_good(paths[j], -d + 2 * j, a, x, d));
            let p = paths[j];
            assert(n <= p.actual_endpoint);
            if p.actual_endpoint > n {
                let dd = d - excess(p.actual_endpoint as int, n) - excess(p.expected_endpoint as int, m);
                assert(reach(a, x, n, m, dd));
                if dd >= 0 {
                    assert(within_edits(a, x, dd));
                }
            } else {
                assert(paths[j].actual_endpoint == a.len());
            }
        }
    }
}

/// After a round `d` in which no path reached the end of the expected
/// input, no prefix of the actual input is within `d` changes of it.
proof fn lemma_prefix_not_reached<V, T: View<V = V>>(paths: Seq<Path<T>>, d: int, a: Seq<V>, x: Seq<V>)
    requires
        0 <= d,
        paths.len() == d + 1,
        paths_ok(paths, d, a, x),
        forall|dd: int| 0 <= dd < d ==> !#[trigger] prefix_within_edits(a, x, dd),
        forall|j: int| 0 <= j < paths.len() ==> #[trigger] paths[j].expected_endpoint != x.len(),
    ensures
        !prefix_within_edits(a, x, d),
{
    let n = a.len() as int;
    let m = x.len() as int;
    if prefix_within_edits(a, x, d) {
        let i = choose|i: int| 0 <= i <= a.len() && #[trigger] reach(a, x, i, x.len() as int, d);
        lemma_reach_diagonal(a, x, i, m, d);
        let k = i - m;
        if (d - k) % 2 != 0 {
            lemma_reach_parity(a, x, i, m, d);
            if d - 1 >= 0 {
                assert(reach(a, x, i, m, d - 1));
                assert(prefix_within_edits(a, x, d - 1));
            }
        } else {
            let j = (k + d) / 2;
            assert(path_good(paths[j], -d + 2 * j, a, x, d));
            let p = paths[j];
            assert(i <= p.actual_endpoint);
            assert(paths[j].expected_endpoint != x.len());
            let ci = min_nat(p.actual_endpoint as int, n);
            let dd = d - excess(p.actual_endpoint as int, n) - excess(p.expected_endpoint as int, m);
            assert(reach(a, x, ci, m, dd));
            if dd >= 0 {
                assert(prefix_within_edits(a, x, dd));
            }
        }
    }
}

/// A path of round `d` that consumed all of the expected input, in the
/// first round where some prefix of the actual input is that close to it,
/// lies within the inputs and changes `d` elements.
proof fn lemma_prefix_path_inside<V, T: View<V = V>>(paths: Seq<Path<T>>, d: int, a: Seq<V>, x: Seq<V>, j: int)
    requires
        0 <= d,
        paths.len() == d + 1,
        paths_ok(paths, d, a, x),
        forall|dd: int| 0 <= dd < d ==> !#[trigger] prefix_within_edits(a, x, dd),
        0 <= j < paths.len(),
        paths[j].expected_endpoint == x.len(),
    ensures
        paths[j].actual_endpoint <= a.len(),
        change_count(paths[j].edits@) == d,
        2 * paths[j].edits@.len() == paths[j].actual_endpoint + x.len() + d,
{
    let p = paths[j];
    assert(path_good(p, -d + 2 * j, a, x, d));
    let n = a.len() as int;
    let m = x.len() as int;
    if p.actual_endpoint > n {
        let dd = d - excess(p.actual_endpoint as int, n) - excess(p.expected_endpoint as int, m);
        assert(reach(a, x, n, m, dd));
        assert(prefix_within_edits(a, x, dd));
    }
    lemma_edits_len(p.edits@);
    assert(actual_side(p.edits@).len() == p.actual_endpoint);
    assert(expected_side(p.edits@).len() == m);
}

/// In the first round where some prefix of the actual input is within `d`
/// changes of the expected input, the longest path that consumed all of
/// the expected input reaches as far into the actual input as any such
/// prefix.
proof fn lemma_prefix_longest_is_furthest<V, T: View<V = V>>(
    paths: Seq<Path<T>>,
    d: int,
    a: Seq<V>,
    x: Seq<V>,
    b: int,
)
    requires
        0 <= d,
        paths.len() == d + 1,
        paths_ok(paths, d, a, x),
        forall|dd: int| 0 <= dd < d ==> !#[trigger] prefix_within_edits(a, x, dd),
        0 <= b < paths.len(),
        paths[b].expected_endpoint == x.len(),
        forall|j: int|
            0 <= j < paths.len() && #[trigger] paths[j].expected_endpoint == x.len() ==> paths[j].edits@.len()
                <= paths[b].edits@.len(),
    ensures
        forall|i: int| #[trigger] reach(a, x, i, x.len() as int, d) ==> i <= paths[b].actual_endpoint,
{
    let n = a.len() as int;
    let m = x.len() as int;
    lemma_prefix_path_inside(paths, d, a, x, b);
    assert forall|i: int| #[trigger] reach(a, x, i, x.len() as int, d) implies i <= paths[b].actual_endpoint by {
        lemma_reach_diagonal(a, x, i, m, d);
        let k = i - m;
        if (d - k) % 2 != 0 {
            lemma_reach_parity(a, x, i, m, d);
            if d - 1 >= 0 {
                assert(reach(a, x, i, m, d - 1));
                assert(prefix_within_edits(a, x, d - 1));
            }
        } else {
            let j = (k + d) / 2;
            assert(path_good(paths[j], -d + 2 * j, a, x, d));
            let p = paths[j];
            assert(i <= p.actual_endpoint);
            if p.expected_endpoint != m {
                let ci = min_nat(p.actual_endpoint as int, n);
                let dd = d - excess(p.actual_endpoint as int, n) - excess(p.expected_endpoint as int, m);
                assert(reach(a, x, ci, m, dd));
                assert(prefix_within_edits(a, x, dd));
            } else {
                lemma_prefix_path_inside(paths, d, a, x, j);
                assert(paths[j].edits@.len() <= paths[b].edits@.len());
            }
        }
    }
}

/// Computes the edit list of `actual` and `expected`.
///
/// If `actual` and `expected` are equal, this returns
/// [`Difference::Equal`]. If they differ but are at most [`MAX_DISTANCE`]
/// insertions and deletions apart (their edit distance), this returns
/// [`Difference::Editable`] with edits that turn `actual` into `expected`
/// (as `mode` restricts them): as few as possible in [`Mode::Exact`], no
/// more than the edit distance in [`Mode::Contains`], and in
/// [`Mode::Prefix`] at most one more than the edit distance from the
/// closest prefix of `actual`, the actual element that faces a last extra
/// expected element coming before it. Otherwise it returns
/// [`Difference::Unrelated`].
///
/// This uses Myers' algorithm with a maximum edit distance of
/// [`MAX_DISTANCE`]: round by round, one more edit per round, it keeps on
/// each diagonal the path that reaches furthest. Where both parent paths
/// reach equally far, it prefers the actual side in odd rounds and the
/// expected side in even ones, so that the elements of differing blocks
/// interleave. The spec function [`search`] states that search, and so
/// which of several equally short edit lists comes out.
#[verifier::rlimit(60)]
pub fn edit_list<T: Token>(actual: &[T], expected: &[T], mode: Mode) -> (r: Difference<T>)
    requires
        actual@.len() < i32::MAX,
        expected@.len() < i32::MAX,
    ensures
        (r is Equal) <==> views(actual@) == views(expected@),
        r matches Difference::Editable(e) ==> transcript_for(
            mode,
            e@,
            views(actual@),
            views(expected@),
        ),
        r matches Difference::Editable(e) ==> change_count(e@) <= MAX_DISTANCE + if mode is Prefix {
            1int
        } else {
            0int
        },
        r is Unrelated ==> !within_edits(views(actual@), views(expected@), MAX_DISTANCE as int),
        r is Unrelated && mode is Prefix ==> !prefix_within_edits(
            views(actual@),
            views(expected@),
            MAX_DISTANCE as int,
        ),
        !(mode is Prefix) ==> (r matches Difference::Editable(e) ==> forall|d: int|
            #[trigger] within_edits(views(actual@), views(expected@), d) ==> change_count(e@) <= d),
        mode is Prefix ==> (r matches Difference::Editable(e) ==> forall|d: int|
            #[trigger] prefix_within_edits(views(actual@), views(expected@), d) ==> change_count(e@)
                <= d + 1),
        r is Editable ==> within_edits(views(actual@), views(expected@), MAX_DISTANCE as int) || (
        mode is Prefix && prefix_within_edits(views(actual@), views(expected@), MAX_DISTANCE as int)),
        mode is Prefix ==> (r matches Difference::Editable(e) ==> prefix_keeps_actual(e@, views(actual@))),
        outcome(r) == search(actual@, expected@, mode, 0, 0),
        mode is Prefix ==> (r matches Difference::Editable(e) ==> forall|i: int, d: int|
            actual_side(e@).len() <= i && #[trigger] reach(
                views(actual@),
                views(expected@),
                i,
                expected@.len() as int,
                d,
            ) ==> change_count(e@) <= d),
{
    let ghost a = views(actual@);
    let ghost x = views(expected@);
    let alen = actual.len();
    let elen = expected.len();
    let mut paths_last: Vec<Path<T>> = Vec::new();
    let mut distance: i32 = 0;
    while distance <= MAX_DISTANCE
        invariant
            0 <= distance <= MAX_DISTANCE + 1,
            alen == actual@.len(),
            elen == expected@.len(),
            a == views(actual@),
            x == views(expected@),
            alen < i32::MAX,
            elen < i32::MAX,
            paths_last@.len() == distance,
            paths_ok(paths_last@, distance - 1, a, x),
            distance >= 1 ==> a != x,
            forall|dd: int| 0 <= dd < distance ==> !#[trigger] within_edits(a, x, dd),
            mode is Prefix ==> forall|dd: int| 0 <= dd < distance ==> !#[trigger] prefix_within_edits(a, x, dd),
            paths_are(paths_last@, actual@, expected@, distance - 1),
            search(actual@, expected@, mode, 0, 0) == search(actual@, expected@, mode, distance as int, -distance),
        decreases MAX_DISTANCE + 1 - distance,
    {
        let mut paths_current: Vec<Path<T>> = Vec::new();
        let mut k: i32 = -distance;
        while k <= distance
            invariant
                0 <= distance <= MAX_DISTANCE,
                -distance <= k <= distance + 2,
                (k + distance) % 2 == 0,
                alen == actual@.len(),
                elen == expected@.len(),
                a == views(actual@),
                x == views(expected@),
                alen < i32::MAX,
                elen < i32::MAX,
                paths_last@.len() == distance,
                paths_ok(paths_last@, distance - 1, a, x),
                paths_current@.len() == (k + distance) / 2,
                paths_ok(paths_current@, distance as int, a, x),
                distance == 0 && k > 0 ==> a != x,
                distance >= 1 ==> a != x,
                forall|dd: int| 0 <= dd < distance ==> !#[trigger] within_edits(a, x, dd),
                mode is Prefix ==> forall|dd: int| 0 <= dd < distance ==> !#[trigger] prefix_within_edits(a, x, dd),
                forall|j: int|
                    0 <= j < paths_current@.len() ==> !(#[trigger] paths_current@[j].actual_endpoint == alen
                        && paths_current@[j].expected_endpoint == elen),
                paths_are(paths_last@, actual@, expected@, distance - 1),
                paths_are(paths_current@, actual@, expected@, distance as int),
                search(actual@, expected@, mode, 0, 0) == search(actual@, expected@, mode, distance as int, k as int),
            decreases distance + 2 - k,
        {
            let mut path = start_path(&paths_last, k, distance, actual, expected);
            let ghost start = path;
            follow_diagonal(&mut path, k, distance, actual, expected);
            proof {
                reveal(search);
                assert(path_is(path, search_path(actual@, expected@, distance as int, k as int)));
                assert(path.expected_endpoint == path.actual_endpoint - k);
            }
            // If both inputs are exhausted, we are done.
            if path.actual_endpoint == alen && path.expected_endpoint == elen {
                assert(a.take(alen as int) == a);
                assert(x.take(elen as int) == x);
                if has_non_both(&path.edits) {
                    if let Mode::Contains = mode {
                        compress_prefix_and_suffix(&mut path.edits);
                        assert(a.subrange(0, alen as int) == a);
                    }
                    proof {
                        if !(mode is Contains) && path.edits@.len() > 0 {
                            assert forall|i: int| 0 <= i < path.edits@.drop_last().len() implies !(
                            path.edits@.drop_last()[i] is AdditionalActual) by {
                                assert(path.edits@.drop_last()[i] == path.edits@[i]);
                            }
                        }
                        if !(mode is Contains) {
                            assert(0 <= alen <= a.len() && actual_side(path.edits@) == a.take(
                                alen as int,
                            ));
                        }
                        assert(reach(a, x, alen as int, elen as int, distance as int));
                        lemma_reach_monotone(a, x, alen as int, elen as int, distance as int, MAX_DISTANCE as int);
                        if mode is Prefix {
                            assert forall|i: int, dd: int|
                                actual_side(path.edits@).len() <= i && #[trigger] reach(a, x, i, elen as int, dd)
                                implies change_count(path.edits@) <= dd by {
                                if dd < distance {
                                    assert(prefix_within_edits(a, x, dd));
                                }
                            }
                        }
                    }
                    return Difference::Editable(path.edits);
                } else {
                    proof {
                        lemma_all_both_sides(path.edits@);
                    }
                    return Difference::Equal;
                }
            }
            proof {
                if distance == 0 && a == x {
                    assert(all_both(start.edits@));
                    assert(path.actual_endpoint == path.expected_endpoint);
                    if path.actual_endpoint < alen {
                        assert(a[path.actual_endpoint as int] == x[path.expected_endpoint as int]);
                    }
                }
            }
            let ghost before = paths_current@;
            paths_current.push(path);
            proof {
                assert forall|j: int| 0 <= j < paths_current@.len() implies #[trigger] path_is(
                    paths_current@[j],
                    search_path(actual@, expected@, distance as int, -distance + 2 * j),
                ) by {
                    if j < before.len() {
                        assert(paths_current@[j] == before[j]);
                    }
                }
                assert forall|j: int| 0 <= j < paths_current@.len() implies #[trigger] path_good(
                    paths_current@[j],
                    -distance + 2 * j,
                    a,
                    x,
                    distance as int,
                ) by {
                    if j < before.len() {
                        assert(paths_current@[j] == before[j]);
                    }
                }
            }
            k = k + 2;
        }
        proof {
            lemma_end_not_reached(paths_current@, distance as int, a, x);
            reveal(search);
            assert(path_views(paths_current@) =~= round_paths(actual@, expected@, distance as int)) by {
                assert forall|j: int| 0 <= j < paths_current@.len() implies path_views(paths_current@)[j]
                    == round_paths(actual@, expected@, distance as int)[j] by {
                    assert(path_is(paths_current@[j], search_path(actual@, expected@, distance as int, -distance + 2 * j)));
                }
            }
        }
        if let Mode::Prefix = mode {
            proof {
                assert forall|j: int| 0 <= j < paths_current@.len() implies #[trigger] paths_current@[j].expected_endpoint
                    == paths_current@[j].actual_endpoint - (-distance + 2 * j) by {
                    assert(path_good(paths_current@[j], -distance + 2 * j, a, x, distance as int));
                }
            }
            let found = longest_path_reaching_end(&paths_current, elen, Ghost(distance as int));
            proof {
                if found is None {
                    lemma_prefix_not_reached(paths_current@, distance as int, a, x);
                }
            }
            if let Some(idx) = found {
                let ghost pc = paths_current@;
                let path = paths_current.remove(idx);
                assert(path == pc[idx as int]);
                assert(path_good(pc[idx as int], -distance + 2 * idx, a, x, distance as int));
                let edits = prefix_edits(path, -distance + 2 * (idx as i32), distance, actual, expected);
                proof {
                    lemma_prefix_longest_is_furthest(pc, distance as int, a, x, idx as int);
                    lemma_prefix_path_inside(pc, distance as int, a, x, idx as int);
                    assert forall|i: int, dd: int|
                        actual_side(edits@).len() <= i && #[trigger] reach(a, x, i, expected@.len() as int, dd)
                        implies change_count(edits@) <= dd by {
                        if dd < distance {
                            assert(prefix_within_edits(a, x, dd));
                        }
                    }
                    assert(x.len() == expected@.len());
                    let ci = min_nat(path.actual_endpoint as int, alen as int);
                    let dd = distance - excess(path.actual_endpoint as int, alen as int) - excess(
                        path.expected_endpoint as int,
                        elen as int,
                    );
                    assert(reach(a, x, ci, elen as int, dd));
                    lemma_reach_monotone(a, x, ci, elen as int, dd, MAX_DISTANCE as int);
                    assert(reach(a, x, ci, x.len() as int, MAX_DISTANCE as int));
                }
                if has_non_both(&edits) {
                    return Difference::Editable(edits);
                } else {
                    proof {
                        assert(!(edits@[edits@.len() - 1] is Both));
                    }
                    return Difference::Equal;
                }
            }
        }
        paths_last = paths_current;
        distance = distance + 1;
    }
    proof {
        reveal(search);
    }
    Difference::Unrelated
}

/// The paths, by how far they consumed the actual input and their edits.
pub open spec fn path_views<T>(paths: Seq<Path<T>>) -> Seq<SearchPath<T>> {
    paths.map_values(|p: Path<T>| (p.actual_endpoint as int, p.edits@))
}

/// Among the paths which consumed all of the expected input, the last one
/// with the most edits.
fn longest_path_reaching_end<T>(paths: &Vec<Path<T>>, elen: usize, d: Ghost<int>) -> (r: Option<usize>)
    requires
        forall|j: int|
            0 <= j < paths@.len() ==> #[trigger] paths@[j].expected_endpoint == paths@[j].actual_endpoint - (-d@
                + 2 * j),
    ensures
        r matches Some(i) ==> i < paths@.len() && paths@[i as int].expected_endpoint == elen,
        r is None ==> forall|i: int|
            0 <= i < paths@.len() ==> paths@[i].expected_endpoint != elen,
        r matches Some(i) ==> longest_reaching(path_views(paths@), d@, elen as int, paths@.len() as int)
            == Some(i as int),
        r is None ==> longest_reaching(path_views(paths@), d@, elen as int, paths@.len() as int) is None,
        r matches Some(i) ==> forall|j: int|
            0 <= j < paths@.len() && #[trigger] paths@[j].expected_endpoint == elen ==> paths@[j].edits@.len()
                <= paths@[i as int].edits@.len(),
{
    let mut best: Option<usize> = None;
    let mut best_len: usize = 0;
    let mut i: usize = 0;
    while i < paths.len()
        invariant
            i <= paths@.len(),
            best matches Some(b) ==> b < i && paths@[b as int].expected_endpoint == elen,
            best is None ==> forall|j: int| 0 <= j < i ==> paths@[j].expected_endpoint != elen,
            forall|j: int|
                0 <= j < paths@.len() ==> #[trigger] paths@[j].expected_endpoint == paths@[j].actual_endpoint
                    - (-d@ + 2 * j),
            best matches Some(b) ==> best_len == paths@[b as int].edits@.len(),
            best matches Some(b) ==> forall|j: int|
                0 <= j < i && #[trigger] paths@[j].expected_endpoint == elen ==> paths@[j].edits@.len()
                    <= best_len,
            longest_reaching(path_views(paths@), d@, elen as int, i as int) == match best {
                Some(b) => Some(b as int),
                None => None::<int>,
            },
        decreases paths@.len() - i,
    {
        proof {
            let ps = path_views(paths@);
            assert(ps[i as int] == (paths@[i as int].actual_endpoint as int, paths@[i as int].edits@));
            match best {
                Some(b) => {
                    assert(ps[b as int] == (paths@[b as int].actual_endpoint as int, paths@[b as int].edits@));
                },
                None => {},
            }
            assert(paths@[i as int].expected_endpoint == paths@[i as int].actual_endpoint - (-d@ + 2 * i));
        }
        if paths[i].expected_endpoint == elen {
            match best {
                None => {
                    best = Some(i);
                    best_len = paths[i].edits.len();
                },
                Some(_) => {
                    if paths[i].edits.len() >= best_len {
                        best = Some(i);
                        best_len = paths[i].edits.len();
                    }
                },
            }
        }
        i = i + 1;
    }
    best
}

/// The index of the first edit of `s` at or after `from` which is not an
/// extra actual element, or `s.len()`.
pub open spec fn first_kept<T>(s: Seq<Edit<T>>, from: int) -> int
    decreases s.len() - from,
{
    if from >= s.len() {
        s.len() as int
    } else if s[from] is ExtraActual {
        first_kept(s, from + 1)
    } else {
        from
    }
}

/// One past the last edit of `s` before `end` which is not an extra actual
/// element, or 0.
pub open spec fn last_kept_end<T>(s: Seq<Edit<T>>, end: int) -> int
    decreases end,
{
    if end <= 0 {
        0
    } else if s[end - 1] is ExtraActual {
        last_kept_end(s, end - 1)
    } else {
        end
    }
}

/// `s` with its leading run of extra actual elements replaced by
/// [`Edit::AdditionalActual`], keeping the last of the run when an extra
/// expected element follows it; `s` itself when it holds only extra actual
/// elements.
pub open spec fn compressed_prefix<T>(s: Seq<Edit<T>>) -> Seq<Edit<T>> {
    let f = first_kept(s, 0);
    if f >= s.len() {
        s
    } else {
        let start = if f > 0 && s[f] is ExtraExpected {
            f - 1
        } else {
            f
        };
        seq![Edit::AdditionalActual] + s.subrange(start, s.len() as int)
    }
}

/// `s` with its trailing run of extra actual elements replaced by
/// [`Edit::AdditionalActual`], keeping the first of the run when an extra
/// expected element precedes it; `s` itself when it holds only extra actual
/// elements.
pub open spec fn compressed_suffix<T>(s: Seq<Edit<T>>) -> Seq<Edit<T>> {
    let e = last_kept_end(s, s.len() as int);
    if e == 0 {
        s
    } else {
        let last = if e - 1 < s.len() - 1 && s[e - 1] is ExtraExpected {
            e
        } else {
            e - 1
        };
        s.take(last + 1).push(Edit::AdditionalActual)
    }
}

proof fn lemma_first_kept_at<T>(s: Seq<Edit<T>>, from: int, i: int)
    requires
        0 <= from <= i <= s.len(),
        forall|j: int| from <= j < i ==> s[j] is ExtraActual,
        i == s.len() || !(s[i] is ExtraActual),
    ensures
        first_kept(s, from) == i,
    decreases i - from,
{
    if from < i {
        lemma_first_kept_at(s, from + 1, i);
    }
}

proof fn lemma_last_kept_end_at<T>(s: Seq<Edit<T>>, end: int, i: int)
    requires
        0 <= i <= end <= s.len(),
        forall|j: int| i <= j < end ==> s[j] is ExtraActual,
        i == 0 || !(s[i - 1] is ExtraActual),
    ensures
        last_kept_end(s, end) == i,
    decreases end - i,
{
    if i < end {
        lemma_last_kept_end_at(s, end - 1, i);
    }
}

/// Replaces the leading run of extra actual elements by
/// [`Edit::AdditionalActual`], keeping the last of them when an extra
/// expected element follows the run.
#[verifier::rlimit(40)]
fn compress_prefix<T: Copy + View>(edits: &mut Vec<Edit<T>>)
    ensures
        final(edits)@ == compressed_prefix(old(edits)@),
        change_count(final(edits)@) <= change_count(old(edits)@),
        expected_side(final(edits)@) == expected_side(old(edits)@),
        exists|i: int|
            0 <= i <= actual_side(old(edits)@).len() && actual_side(final(edits)@) == actual_side(
                old(edits)@,
            ).subrange(i, actual_side(old(edits)@).len() as int),
        !all_both(old(edits)@) ==> !all_both(final(edits)@),
{
    let ghost orig = edits@;
    proof {
        assert(actual_side(orig).subrange(0, actual_side(orig).len() as int) =~= actual_side(orig));
    }
    // The first edit which is not an extra actual element.
    let mut first: usize = 0;
    while first < edits.len() && matches!(edits[first], Edit::ExtraActual(_))
        invariant
            first <= edits@.len(),
            edits@ == orig,
            forall|j: int| 0 <= j < first ==> edits@[j] is ExtraActual,
        decreases edits@.len() - first,
    {
        first = first + 1;
    }
    proof {
        lemma_first_kept_at(orig, 0, first as int);
    }
    if first < edits.len() {
        if first > 0 && matches!(edits[first], Edit::ExtraExpected(_)) {
            first = first - 1;
        }
        let mut rest: Vec<Edit<T>> = Vec::new();
        rest.push(Edit::AdditionalActual);
        let mut i = first;
        while i < edits.len()
            invariant
                first <= i <= edits@.len(),
                edits@ == orig,
                rest@ == seq![Edit::<T>::AdditionalActual] + orig.subrange(first as int, i as int),
            decreases edits@.len() - i,
        {
            rest.push(edits[i]);
            i = i + 1;
            assert(rest@ =~= seq![Edit::<T>::AdditionalActual] + orig.subrange(first as int, i as int));
        }
        proof {
            let pre = orig.take(first as int);
            let post = orig.subrange(first as int, orig.len() as int);
            let aa = seq![Edit::<T>::AdditionalActual];
            assert(orig =~= pre + post);
            lemma_sides_concat(pre, post);
            lemma_sides_concat(aa, post);
            lemma_change_count_concat(pre, post);
            lemma_change_count_concat(aa, post);
            lemma_change_count_push(Seq::<Edit<T>>::empty(), Edit::<T>::AdditionalActual);
            assert(Seq::<Edit<T>>::empty().push(Edit::<T>::AdditionalActual) =~= aa);
            lemma_sides_push(Seq::<Edit<T>>::empty(), Edit::<T>::AdditionalActual);
            lemma_extra_actual_run(pre);
            assert(actual_side(rest@) =~= actual_side(post));
            assert(actual_side(orig).subrange(
                actual_side(pre).len() as int,
                actual_side(orig).len() as int,
            ) =~= actual_side(post));
            assert(!(rest@[0] is Both));
        }
        *edits = rest;
    }
}

/// Replaces the trailing run of extra actual elements by
/// [`Edit::AdditionalActual`], keeping the first of them when an extra
/// expected element precedes the run.
fn compress_suffix<T: Copy + View>(edits: &mut Vec<Edit<T>>)
    ensures
        final(edits)@ == compressed_suffix(old(edits)@),
        change_count(final(edits)@) <= change_count(old(edits)@),
        expected_side(final(edits)@) == expected_side(old(edits)@),
        exists|j: int|
            0 <= j <= actual_side(old(edits)@).len() && actual_side(final(edits)@) == actual_side(
                old(edits)@,
            ).take(j),
        !all_both(old(edits)@) ==> !all_both(final(edits)@),
{
    let ghost mid = edits@;
    proof {
        assert(actual_side(mid).take(actual_side(mid).len() as int) =~= actual_side(mid));
    }
    // One past the last edit which is not an extra actual element.
    let mut end: usize = edits.len();
    while end > 0 && matches!(edits[end - 1], Edit::ExtraActual(_))
        invariant
            end <= edits@.len(),
            edits@ == mid,
            forall|j: int| end <= j < edits@.len() ==> edits@[j] is ExtraActual,
        decreases end,
    {
        end = end - 1;
    }
    proof {
        lemma_last_kept_end_at(mid, mid.len() as int, end as int);
    }
    if end > 0 {
        let mut last = end - 1;
        if last < edits.len() - 1 && matches!(edits[last], Edit::ExtraExpected(_)) {
            last = last + 1;
        }
        let ghost pre = mid.take(last + 1);
        let ghost post = mid.subrange(last + 1, mid.len() as int);
        edits.truncate(last + 1);
        assert(edits@ =~= pre);
        edits.push(Edit::AdditionalActual);
        proof {
            assert(mid =~= pre + post);
            lemma_sides_concat(pre, post);
            lemma_change_count_concat(pre, post);
            lemma_change_count_push(pre, Edit::<T>::AdditionalActual);
            lemma_sides_push(pre, Edit::<T>::AdditionalActual);
            lemma_extra_actual_run(post);
            assert(actual_side(edits@) =~= actual_side(mid).take(actual_side(pre).len() as int));
            assert(!(edits@[edits@.len() - 1] is Both));
        }
    }
}

/// Replaces the leading and trailing runs of extra actual elements by
/// [`Edit::AdditionalActual`], keeping one extra actual element next to an
/// extra expected element at either end.
pub fn compress_prefix_and_suffix<T: Copy + View>(edits: &mut Vec<Edit<T>>)
    ensures
        final(edits)@ == compressed_suffix(compressed_prefix(old(edits)@)),
        change_count(final(edits)@) <= change_count(old(edits)@),
        expected_side(final(edits)@) == expected_side(old(edits)@),
        exists|i: int, j: int|
            0 <= i <= j <= actual_side(old(edits)@).len() && actual_side(final(edits)@)
                == actual_side(old(edits)@).subrange(i, j),
        !all_both(old(edits)@) ==> !all_both(final(edits)@),
{
    let ghost orig = edits@;
    compress_prefix(edits);
    let ghost mid = edits@;
    compress_suffix(edits);
    proof {
        let s = actual_side(orig);
        let i = choose|i: int|
            0 <= i <= s.len() && actual_side(mid) == s.subrange(i, s.len() as int);
        let j = choose|j: int|
            0 <= j <= actual_side(mid).len() && actual_side(edits@) == actual_side(mid).take(j);
        assert(actual_side(edits@) =~= s.subrange(i, i + j));
    }
}

/// A run of extra actual elements contributes nothing to the expected side.
proof fn lemma_extra_actual_run<T: View>(s: Seq<Edit<T>>)
    requires
        forall|j: int| 0 <= j < s.len() ==> s[j] is ExtraActual,
    ensures
        expected_side(s) == Seq::<T::V>::empty(),
        actual_side(s).len() == s.len(),
    decreases s.len(),
{
    if s.len() > 0 {
        lemma_extra_actual_run(s.drop_last());
    }
}

} // verus!
