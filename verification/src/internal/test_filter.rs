//! The test filtering protocol.
//!
//! A filter is a `,`-separated list of wildcard patterns (the positive
//! patterns), optionally followed by a `-` and another `,`-separated list
//! (the negative patterns). A test matches the filter if and only if it
//! matches any of the positive patterns but none of the negative patterns.
//! An empty positive list accepts every test.

use vstd::prelude::*;
use crate::internal::glob::{
    glob_match, glob_match_from, has_wildcard, is_glob_pattern, lemma_literal_pattern, Pattern,
};
use crate::matcher_support::edit_distance::chars_equal;
use crate::text::{char_from, chars_of, copy_range, find_char, split, split_chars, string_of, views_of};

verus! {

/// A rule deciding which tests run.
pub trait TestFilter {
    /// Whether the test named `test_name` runs.
    spec fn accepts(&self, test_name: Seq<char>) -> bool;

    /// Returns true if the test should run.
    fn filter(&self, test_name: &str) -> (r: bool)
        ensures
            r == self.accepts(test_name@),
    ;
}

/// Accepts every test.
pub struct AcceptAll;

impl TestFilter for AcceptAll {
    open spec fn accepts(&self, test_name: Seq<char>) -> bool {
        true
    }

    fn filter(&self, _test_name: &str) -> (r: bool) {
        true
    }
}

/// Accepts the test with exactly this name.
pub struct Equals(pub String);

impl TestFilter for Equals {
    open spec fn accepts(&self, test_name: Seq<char>) -> bool {
        test_name == self.0@
    }

    fn filter(&self, test_name: &str) -> (r: bool) {
        let a = chars_of(test_name);
        let b = chars_of(self.0.as_str());
        chars_equal(a.as_slice(), b.as_slice())
    }
}

/// Accepts the tests whose names match a wildcard pattern.
pub struct Matches(pub Pattern);

impl TestFilter for Matches {
    open spec fn accepts(&self, test_name: Seq<char>) -> bool {
        glob_match(self.0.0@, test_name)
    }

    fn filter(&self, test_name: &str) -> (r: bool) {
        self.0.matches(test_name)
    }
}

/// The patterns of a filter, split into literal names and wildcard patterns.
pub struct Collection {
    pub positive_equals: Vec<Equals>,
    pub positive_matches: Vec<Matches>,
    pub negative_equals: Vec<Equals>,
    pub negative_matches: Vec<Matches>,
}

/// The four pattern lists of a [`Collection`], as character sequences.
pub struct CollectionView {
    pub positive_equals: Seq<Seq<char>>,
    pub positive_matches: Seq<Seq<char>>,
    pub negative_equals: Seq<Seq<char>>,
    pub negative_matches: Seq<Seq<char>>,
}

/// The names of the exact-name filters.
pub open spec fn equals_views(v: Seq<Equals>) -> Seq<Seq<char>> {
    v.map_values(|e: Equals| e.0@)
}

/// The patterns of the wildcard filters.
pub open spec fn matches_views(v: Seq<Matches>) -> Seq<Seq<char>> {
    v.map_values(|m: Matches| m.0.0@)
}

impl View for Collection {
    type V = CollectionView;

    open spec fn view(&self) -> CollectionView {
        CollectionView {
            positive_equals: equals_views(self.positive_equals@),
            positive_matches: matches_views(self.positive_matches@),
            negative_equals: equals_views(self.negative_equals@),
            negative_matches: matches_views(self.negative_matches@),
        }
    }
}

/// Some name of `names` equals `test_name`.
pub open spec fn any_equal(names: Seq<Seq<char>>, test_name: Seq<char>) -> bool {
    exists|i: int| 0 <= i < names.len() && names[i] == test_name
}

/// Some pattern of `patterns` matches `test_name`.
pub open spec fn any_glob(patterns: Seq<Seq<char>>, test_name: Seq<char>) -> bool {
    exists|i: int| 0 <= i < patterns.len() && glob_match(patterns[i], test_name)
}

/// Whether the pattern lists accept `test_name`.
pub open spec fn collection_accepts(c: CollectionView, test_name: Seq<char>) -> bool {
    &&& (any_equal(c.positive_equals, test_name) || any_glob(c.positive_matches, test_name))
    &&& !any_equal(c.negative_equals, test_name)
    &&& !any_glob(c.negative_matches, test_name)
}

impl TestFilter for Collection {
    open spec fn accepts(&self, test_name: Seq<char>) -> bool {
        collection_accepts(self@, test_name)
    }

    fn filter(&self, test_name: &str) -> (r: bool) {
        (any_equals_filter(&self.positive_equals, test_name) || any_matches_filter(
            &self.positive_matches,
            test_name,
        )) && !any_equals_filter(&self.negative_equals, test_name) && !any_matches_filter(
            &self.negative_matches,
            test_name,
        )
    }
}

fn any_equals_filter(filters: &Vec<Equals>, test_name: &str) -> (r: bool)
    ensures
        r == any_equal(equals_views(filters@), test_name@),
{
    let mut i: usize = 0;
    while i < filters.len()
        invariant
            i <= filters@.len(),
            forall|j: int| 0 <= j < i ==> filters@[j].0@ != test_name@,
        decreases filters@.len() - i,
    {
        if filters[i].filter(test_name) {
            assert(equals_views(filters@)[i as int] == test_name@);
            return true;
        }
        i = i + 1;
    }
    assert forall|j: int| 0 <= j < equals_views(filters@).len() implies equals_views(
        filters@,
    )[j] != test_name@ by {
        assert(equals_views(filters@)[j] == filters@[j].0@);
    }
    false
}

fn any_matches_filter(filters: &Vec<Matches>, test_name: &str) -> (r: bool)
    ensures
        r == any_glob(matches_views(filters@), test_name@),
{
    let mut i: usize = 0;
    while i < filters.len()
        invariant
            i <= filters@.len(),
            forall|j: int| 0 <= j < i ==> !glob_match(filters@[j].0.0@, test_name@),
        decreases filters@.len() - i,
    {
        if filters[i].filter(test_name) {
            assert(matches_views(filters@)[i as int] == filters@[i as int].0.0@);
            return true;
        }
        i = i + 1;
    }
    assert forall|j: int| 0 <= j < matches_views(filters@).len() implies !glob_match(
        matches_views(filters@)[j],
        test_name@,
    ) by {
        assert(matches_views(filters@)[j] == filters@[j].0.0@);
    }
    false
}

/// The part of a filter before its first `-`.
pub open spec fn positive_part(v: Seq<char>) -> Seq<char> {
    v.take(char_from(v, 0, '-'))
}

/// The part of a filter after its first `-`, if it has one.
pub open spec fn negative_part(v: Seq<char>) -> Option<Seq<char>> {
    let d = char_from(v, 0, '-');
    if d < v.len() {
        Some(v.subrange(d + 1, v.len() as int))
    } else {
        None
    }
}

/// The piece of a filter is a wildcard pattern.
pub open spec fn is_wild(s: Seq<char>) -> bool {
    has_wildcard(s)
}

/// The piece of a filter is an exact test name.
pub open spec fn is_literal(s: Seq<char>) -> bool {
    !has_wildcard(s)
}

/// The pattern lists that the filter `v` describes.
pub open spec fn collection_for(v: Seq<char>) -> CollectionView {
    let pos = positive_part(v);
    let neg: Seq<Seq<char>> = match negative_part(v) {
        Some(n) => if n.len() > 0 {
            split(n, ',')
        } else {
            Seq::empty()
        },
        None => Seq::empty(),
    };
    CollectionView {
        positive_equals: if pos.len() == 0 {
            Seq::empty()
        } else {
            split(pos, ',').filter(|s: Seq<char>| is_literal(s))
        },
        positive_matches: if pos.len() == 0 {
            seq![seq!['*']]
        } else {
            split(pos, ',').filter(|s: Seq<char>| is_wild(s))
        },
        negative_equals: neg.filter(|s: Seq<char>| is_literal(s)),
        negative_matches: neg.filter(|s: Seq<char>| is_wild(s)),
    }
}

/// Splits the pieces of a pattern list into literal names and wildcard
/// patterns.
fn partition_pieces(pieces: &Vec<Vec<char>>) -> (r: (Vec<Matches>, Vec<Equals>))
    ensures
        matches_views(r.0@) == views_of(pieces@).filter(|s: Seq<char>| is_wild(s)),
        equals_views(r.1@) == views_of(pieces@).filter(|s: Seq<char>| is_literal(s)),
{
    let ghost all = views_of(pieces@);
    let mut globs: Vec<Matches> = Vec::new();
    let mut literals: Vec<Equals> = Vec::new();
    let mut i: usize = 0;
    while i < pieces.len()
        invariant
            i <= pieces@.len(),
            all == views_of(pieces@),
            matches_views(globs@) == all.take(i as int).filter(|s: Seq<char>| is_wild(s)),
            equals_views(literals@) == all.take(i as int).filter(|s: Seq<char>| is_literal(s)),
        decreases pieces@.len() - i,
    {
        let piece = string_of(pieces[i].as_slice());
        let ghost g = matches_views(globs@);
        let ghost l = equals_views(literals@);
        proof {
            reveal_with_fuel(Seq::filter, 1);
            assert(all.take(i + 1).drop_last() =~= all.take(i as int));
            assert(all[i as int] == pieces@[i as int]@);
        }
        if is_glob_pattern(piece.as_str()) {
            globs.push(Matches(Pattern::new(piece)));
            assert(matches_views(globs@) =~= g.push(all[i as int]));
        } else {
            literals.push(Equals(piece));
            assert(equals_views(literals@) =~= l.push(all[i as int]));
        }
        i = i + 1;
    }
    assert(all.take(pieces@.len() as int) =~= all);
    (globs, literals)
}

/// Builds the filter that the filter string `testbridge_test_only` describes.
pub fn get_test_filter(testbridge_test_only: &str) -> (r: Collection)
    ensures
        r@ == collection_for(testbridge_test_only@),
{
    let v = chars_of(testbridge_test_only);
    let dash = find_char(v.as_slice(), '-');
    let positive = copy_range(v.as_slice(), 0, dash);
    assert(positive@ == positive_part(v@));
    let (positive_matches, positive_equals) = if positive.len() == 0 {
        // The empty positive filter accepts everything.
        let mut m: Vec<Matches> = Vec::new();
        let mut star_chars: Vec<char> = Vec::new();
        star_chars.push('*');
        let star = string_of(star_chars.as_slice());
        assert(star@ =~= seq!['*']);
        m.push(Matches(Pattern::new(star)));
        proof {
            assert(m@.len() == 1);
            assert(matches_views(m@)[0] == m@[0].0.0@);
            assert(matches_views(m@) =~= seq![seq!['*']]);
        }
        (m, Vec::new())
    } else {
        let pieces = split_chars(positive.as_slice(), ',');
        partition_pieces(&pieces)
    };
    let (negative_matches, negative_equals) = if dash < v.len() && dash + 1 < v.len() {
        let negative = copy_range(v.as_slice(), dash + 1, v.len());
        let pieces = split_chars(negative.as_slice(), ',');
        partition_pieces(&pieces)
    } else {
        proof {
            reveal_with_fuel(Seq::filter, 1);
        }
        (Vec::new(), Vec::new())
    };
    let r = Collection { positive_equals, positive_matches, negative_equals, negative_matches };
    proof {
        assert(equals_views(r.positive_equals@) == collection_for(v@).positive_equals);
        assert(matches_views(r.positive_matches@) == collection_for(v@).positive_matches);
        assert(equals_views(r.negative_equals@) == collection_for(v@).negative_equals);
        assert(matches_views(r.negative_matches@) == collection_for(v@).negative_matches);
    }
    r
}

/// Whether the test named `test_name` runs under the filter string
/// `test_filter`, where no filter string accepts every test.
pub fn test_should_run_with_filter(test_filter: Option<&str>, test_name: &str) -> (r: bool)
    ensures
        r == match test_filter {
            Some(v) => collection_accepts(collection_for(v@), test_name@),
            None => true,
        },
{
    match test_filter {
        Some(v) => get_test_filter(v).filter(test_name),
        None => AcceptAll.filter(test_name),
    }
}

/// The star pattern matches every string.
pub proof fn lemma_star_matches_all(s: Seq<char>)
    ensures
        glob_match(seq!['*'], s),
{
    lemma_star_down(seq!['*'], s, 0);
}

proof fn lemma_star_down(p: Seq<char>, s: Seq<char>, j: int)
    requires
        p == seq!['*'],
        0 <= j <= s.len(),
    ensures
        glob_match_from(p, s, 0, j),
    decreases s.len() - j,
{
    assert(p.len() == 1 && p[0] == '*');
    assert(glob_match_from(p, s, 1, s.len() as int));
    if j < s.len() {
        lemma_star_down(p, s, j + 1);
        assert(glob_match_from(p, s, 0, j + 1));
    } else {
        assert(glob_match_from(p, s, 1, j));
    }
}

/// The filter law: a test runs exactly when it matches some positive
/// pattern (every test does when there is none) and no negative pattern,
/// where a piece without wildcards matches only the name equal to it.
pub proof fn law_filter_matches_positive_but_no_negative(v: Seq<char>, test_name: Seq<char>)
    ensures
        collection_accepts(collection_for(v), test_name) == ((positive_part(v).len() == 0
            || any_glob(split(positive_part(v), ','), test_name)) && !(negative_part(v) matches Some(
            n,
        ) && n.len() > 0 && any_glob(split(n, ','), test_name))),
{
    let c = collection_for(v);
    let pos = positive_part(v);
    if pos.len() == 0 {
        lemma_star_matches_all(test_name);
        assert(c.positive_matches[0] == seq!['*']);
    } else {
        lemma_pieces_match(split(pos, ','), test_name);
    }
    match negative_part(v) {
        Some(n) => {
            if n.len() > 0 {
                lemma_pieces_match(split(n, ','), test_name);
            } else {
                reveal_with_fuel(Seq::filter, 1);
            }
        },
        None => {
            reveal_with_fuel(Seq::filter, 1);
        },
    }
}

/// Some piece matches as a glob exactly when a literal piece equals the
/// name or a wildcard piece matches it.
proof fn lemma_pieces_match(pieces: Seq<Seq<char>>, test_name: Seq<char>)
    ensures
        any_glob(pieces, test_name) == (any_equal(
            pieces.filter(|s: Seq<char>| is_literal(s)),
            test_name,
        ) || any_glob(pieces.filter(|s: Seq<char>| is_wild(s)), test_name)),
{
    let lits = pieces.filter(|s: Seq<char>| is_literal(s));
    let wilds = pieces.filter(|s: Seq<char>| is_wild(s));
    if any_glob(pieces, test_name) {
        let i = choose|i: int| 0 <= i < pieces.len() && glob_match(pieces[i], test_name);
        if is_literal(pieces[i]) {
            lemma_literal_pattern(pieces[i], test_name, 0, 0);
            assert(pieces[i].subrange(0, pieces[i].len() as int) =~= pieces[i]);
            assert(test_name.subrange(0, test_name.len() as int) =~= test_name);
            pieces.lemma_filter_contains(|s: Seq<char>| is_literal(s), i);
            assert(lits.contains(pieces[i]));
            let k = choose|k: int| 0 <= k < lits.len() && lits[k] == pieces[i];
            assert(any_equal(lits, test_name));
        } else {
            pieces.lemma_filter_contains(|s: Seq<char>| is_wild(s), i);
            assert(wilds.contains(pieces[i]));
            let k = choose|k: int| 0 <= k < wilds.len() && wilds[k] == pieces[i];
            assert(any_glob(wilds, test_name));
        }
    }
    if any_equal(lits, test_name) {
        let k = choose|k: int| 0 <= k < lits.len() && lits[k] == test_name;
        assert(lits.contains(lits[k]));
        pieces.lemma_filter_contains_rev(|s: Seq<char>| is_literal(s), lits[k]);
        pieces.lemma_filter_pred(|s: Seq<char>| is_literal(s), k);
        assert(pieces.contains(lits[k]));
        let i = choose|i: int| 0 <= i < pieces.len() && pieces[i] == lits[k];
        lemma_literal_pattern(pieces[i], test_name, 0, 0);
        assert(pieces[i].subrange(0, pieces[i].len() as int) =~= pieces[i]);
        assert(test_name.subrange(0, test_name.len() as int) =~= test_name);
        assert(glob_match(pieces[i], test_name));
    }
    if any_glob(wilds, test_name) {
        let k = choose|k: int| 0 <= k < wilds.len() && glob_match(wilds[k], test_name);
        assert(wilds.contains(wilds[k]));
        pieces.lemma_filter_contains_rev(|s: Seq<char>| is_wild(s), wilds[k]);
        assert(pieces.contains(wilds[k]));
        let i = choose|i: int| 0 <= i < pieces.len() && pieces[i] == wilds[k];
        assert(glob_match(pieces[i], test_name));
    }
}

} // verus!
