//! Matchers for the positions, as byte offsets, at which a substring
//! occurs in a string.

use vstd::prelude::*;
use vstd::utf8::{encode_scalar, encode_utf8};
use crate::description::{is_text, shown, Description};
use crate::matcher::{print_items, printed_list, Container, ElementwiseMatcher, Matcher, MatcherResult, Printable, Text};
use crate::text::{chars_of, occurs_at, occurs_at_exec, push_all, push_str};
use crate::matchers::contains_regex_matcher::{regex_is_valid, regex_match_starts, regex_starts, regex_valid};

verus! {

/// Byte offsets into a string.
pub struct Positions<'a>(pub &'a [usize]);

impl<'a> Positions<'a> {
    /// The offsets.
    pub fn as_slice(&self) -> (r: &'a [usize])
        ensures
            r@ == self.0@,
    {
        self.0
    }
}

impl<'a> Container for Positions<'a> {
    type Item = usize;

    open spec fn elements(&self) -> Seq<usize> {
        self.0@
    }

    fn items(&self) -> (r: &[usize]) {
        self.0
    }
}

/// The number of bytes of the UTF-8 encoding of `c`.
pub open spec fn char_width(c: char) -> nat {
    let v = c as u32;
    if v < 0x80 {
        1
    } else if v < 0x800 {
        2
    } else if v < 0x10000 {
        3
    } else {
        4
    }
}

/// The number of bytes of the UTF-8 encoding of `s`.
pub open spec fn byte_len(s: Seq<char>) -> nat
    decreases s.len(),
{
    if s.len() == 0 {
        0
    } else {
        byte_len(s.drop_last()) + char_width(s.last())
    }
}

proof fn lemma_encode_concat(a: Seq<char>, b: Seq<char>)
    ensures
        encode_utf8(a + b) == encode_utf8(a) + encode_utf8(b),
    decreases a.len(),
{
    if a.len() == 0 {
        assert(a + b =~= b);
        assert(encode_utf8(a) =~= Seq::<u8>::empty());
        assert(encode_utf8(a) + encode_utf8(b) =~= encode_utf8(b));
    } else {
        assert((a + b).drop_first() =~= a.drop_first() + b);
        assert((a + b)[0] == a[0]);
        lemma_encode_concat(a.drop_first(), b);
        assert(encode_utf8(a + b) =~= encode_utf8(a) + encode_utf8(b));
    }
}

proof fn lemma_scalar_width(c: char)
    ensures
        encode_scalar(c as u32).len() == char_width(c),
{
    vstd::utf8::char_is_scalar(c);
}

/// The byte length of a string is that of its UTF-8 encoding.
pub proof fn lemma_byte_len(s: Seq<char>)
    ensures
        byte_len(s) == encode_utf8(s).len(),
    decreases s.len(),
{
    if s.len() > 0 {
        lemma_byte_len(s.drop_last());
        let last = seq![s.last()];
        assert(s =~= s.drop_last() + last);
        lemma_encode_concat(s.drop_last(), last);
        assert(last.drop_first() =~= Seq::<char>::empty());
        assert(encode_utf8(last) =~= encode_scalar(s.last() as u32) + encode_utf8(Seq::<char>::empty()));
        lemma_scalar_width(s.last());
    }
}

proof fn lemma_byte_len_prefix(s: Seq<char>, i: int)
    requires
        0 <= i <= s.len(),
    ensures
        byte_len(s.take(i)) <= byte_len(s),
    decreases s.len() - i,
{
    if i < s.len() {
        lemma_byte_len_prefix(s, i + 1);
        assert(s.take(i + 1).drop_last() =~= s.take(i));
    } else {
        assert(s.take(i) =~= s);
    }
}

/// The character indices, from `from` on, at which `p` starts an occurrence
/// in `s`, scanning left to right and skipping each occurrence found (an
/// empty `p` occurs at every index).
pub open spec fn match_starts(s: Seq<char>, p: Seq<char>, from: int) -> Seq<int>
    decreases s.len() + 1 - from,
{
    if from < 0 || from > s.len() {
        Seq::empty()
    } else if occurs_at(s, p, from) {
        seq![from] + match_starts(s, p, from + if p.len() == 0 { 1 } else { p.len() as int })
    } else {
        match_starts(s, p, from + 1)
    }
}

/// The byte offsets of the non-overlapping occurrences of `p` in `s`, as
/// `str::match_indices` finds them.
pub open spec fn substring_positions_of(s: Seq<char>, p: Seq<char>) -> Seq<usize> {
    match_starts(s, p, 0).map_values(|i: int| byte_len(s.take(i)) as usize)
}

/// The byte offsets of the non-overlapping occurrences of `p` in `s`.
pub fn find_positions(s: &str, p: &str) -> (r: Vec<usize>)
    ensures
        r@ == substring_positions_of(s@, p@),
{
    let hay = chars_of(s);
    let needle = chars_of(p);
    let total = s.as_bytes().len();
    let n = hay.len();
    proof {
        lemma_byte_len(s@);
    }
    let mut r: Vec<usize> = Vec::new();
    let mut i: usize = 0;
    let mut offset: usize = 0;
    let ghost mut seen: Seq<int> = Seq::empty();
    while i < hay.len()
        invariant
            hay@ == s@,
            n == hay@.len(),
            needle@ == p@,
            total == byte_len(s@),
            i <= hay@.len(),
            offset == byte_len(s@.take(i as int)),
            seen + match_starts(s@, p@, i as int) == match_starts(s@, p@, 0),
            r@ == seen.map_values(|k: int| byte_len(s@.take(k)) as usize),
        decreases hay@.len() - i,
    {
        let ghost before = i;
        let ghost seen_before = seen;
        let found = occurs_at_exec(hay.as_slice(), needle.as_slice(), i);
        let step: usize = if found {
            proof {
                seen = seen.push(i as int);
                lemma_byte_len_prefix(s@, i as int);
            }
            r.push(offset);
            if needle.len() == 0 {
                1
            } else {
                needle.len()
            }
        } else {
            1
        };
        // Move forward `step` characters, counting their bytes.
        let mut k: usize = 0;
        while k < step
            invariant
                hay@ == s@,
                n == hay@.len(),
                total == byte_len(s@),
                before + step <= hay@.len(),
                k <= step,
                i == before + k,
                offset == byte_len(s@.take(i as int)),
            decreases step - k,
        {
            proof {
                assert(s@.take(i + 1).drop_last() =~= s@.take(i as int));
                lemma_byte_len_prefix(s@, i + 1);
            }
            let v = hay[i] as u32;
            let w: usize = if v < 0x80 {
                1
            } else if v < 0x800 {
                2
            } else if v < 0x10000 {
                3
            } else {
                4
            };
            offset = offset + w;
            i = i + 1;
            k = k + 1;
        }
        proof {
            let rest = match_starts(s@, p@, before as int);
            if found {
                assert(rest == seq![before as int] + match_starts(s@, p@, i as int));
                assert(seen + match_starts(s@, p@, i as int) =~= seen_before + rest);
            } else {
                assert(rest == match_starts(s@, p@, i as int));
            }
            assert(r@ =~= seen.map_values(|k: int| byte_len(s@.take(k)) as usize));
        }
    }
    assert(s@.take(i as int) =~= s@);
    if occurs_at_exec(hay.as_slice(), needle.as_slice(), i) {
        proof {
            seen = seen.push(i as int);
        }
        r.push(offset);
    }
    assert(match_starts(s@, p@, i + 1) == Seq::<int>::empty());
    assert(seen =~= match_starts(s@, p@, 0));
    assert(r@ =~= seen.map_values(|k: int| byte_len(s@.take(k)) as usize));
    r
}

/// Matches a string where the byte offsets of the non-overlapping
/// occurrences of `substring` are matched by `inner`.
pub fn substring_positions<A, InnerMatcherT>(substring: &str, inner: InnerMatcherT) -> (m: SubstringPositionsMatcher<A, InnerMatcherT>)
    ensures
        m.substring@ == substring@,
        m.inner == inner,
{
    SubstringPositionsMatcher { substring: substring.to_owned(), inner, phantom: core::marker::PhantomData }
}

/// Matches a string where the byte offsets of the occurrences of
/// `substring` are matched by `inner`.
pub struct SubstringPositionsMatcher<A, InnerMatcherT> {
    pub substring: String,
    pub inner: InnerMatcherT,
    pub phantom: core::marker::PhantomData<A>,
}

/// The description of a [`SubstringPositionsMatcher`] given the printed
/// substring and the rendered description of the inner matcher.
pub open spec fn positions_text(substring: Seq<char>, inner: Seq<char>) -> Seq<char> {
    "has match positions for substring "@ + substring + ", which "@ + inner
}

impl<A: Text, InnerMatcherT: ElementwiseMatcher<usize>> Matcher for SubstringPositionsMatcher<A, InnerMatcherT> {
    type ActualT = A;

    open spec fn accepts(&self, actual: &A) -> bool {
        exists|v: Vec<usize>| v@ == substring_positions_of(actual@, self.substring@) && #[trigger] self.inner.accepts(&v)
    }

    open spec fn describes(&self, r: MatcherResult, d: Description) -> bool {
        exists|d1: Description|
            #[trigger] self.inner.describes(r, d1) && is_text(
                d,
                positions_text(self.substring.printed(), shown(d1)),
            )
    }

    open spec fn explains(&self, actual: &A, d: Description) -> bool {
        exists|v: Vec<usize>, e1: Description|
            v@ == substring_positions_of(actual@, self.substring@) && #[trigger] self.inner.explains(&v, e1)
                && is_text(d, "whose match positions are "@ + printed_list(v@) + ", "@ + shown(e1))
    }

    fn matches(&self, actual: &A) -> MatcherResult {
        let positions = find_positions(actual.as_text(), self.substring.as_str());
        let r = self.inner.matches(&positions);
        proof {
            if self.inner.accepts(&positions) {
                assert(self.accepts(actual));
            } else {
                assert forall|v: Vec<usize>| v@ == substring_positions_of(actual@, self.substring@) implies !#[trigger] self.inner.accepts(&v) by {
                    self.inner.lemma_elementwise(&positions, &v);
                }
            }
        }
        r
    }

    fn describe(&self, matcher_result: MatcherResult) -> Description {
        let d1 = self.inner.describe(matcher_result);
        let t1 = d1.to_chars();
        let mut v: Vec<char> = Vec::new();
        push_str(&mut v, "has match positions for substring ");
        self.substring.print_to(&mut v);
        push_str(&mut v, ", which ");
        push_all(&mut v, t1.as_slice());
        assert(self.inner.describes(matcher_result, d1));
        assert(v@ =~= positions_text(self.substring.printed(), shown(d1)));
        Description::from_chars(v.as_slice())
    }

    fn explain_match(&self, actual: &A) -> Description {
        let positions = find_positions(actual.as_text(), self.substring.as_str());
        let e1 = self.inner.explain_match(&positions);
        let t1 = e1.to_chars();
        let mut v: Vec<char> = Vec::new();
        push_str(&mut v, "whose match positions are ");
        positions.print_to(&mut v);
        push_str(&mut v, ", ");
        push_all(&mut v, t1.as_slice());
        assert(self.inner.explains(&positions, e1));
        Description::from_chars(v.as_slice())
    }
}

/// Matches a string where the byte offsets of the successive matches of the
/// regular expression `pattern`, which must be valid, are matched by
/// `inner`.
pub fn regex_positions<A, InnerMatcherT>(pattern: &str, inner: InnerMatcherT) -> (m: RegexPositionsMatcher<A, InnerMatcherT>)
    requires
        regex_valid(pattern@),
    ensures
        m.pattern_text() == pattern@,
        m.inner() == inner,
{
    RegexPositionsMatcher { pattern: pattern.to_owned(), inner, phantom: core::marker::PhantomData }
}

/// The matcher of [`regex_positions`] when `pattern` is a valid regular
/// expression, else none.
pub fn try_regex_positions<A, InnerMatcherT>(pattern: &str, inner: InnerMatcherT) -> (m: Option<RegexPositionsMatcher<A, InnerMatcherT>>)
    ensures
        m is Some <==> regex_valid(pattern@),
        m matches Some(x) ==> x.pattern_text() == pattern@ && x.inner() == inner,
{
    if regex_is_valid(pattern) {
        Some(regex_positions(pattern, inner))
    } else {
        None
    }
}

/// Matches a string where the byte offsets of the matches of a regular
/// expression are matched by `inner`.
pub struct RegexPositionsMatcher<A, InnerMatcherT> {
    pattern: String,
    inner: InnerMatcherT,
    phantom: core::marker::PhantomData<A>,
}

impl<A, InnerMatcherT> RegexPositionsMatcher<A, InnerMatcherT> {
    /// The pattern is a valid regular expression.
    #[verifier::type_invariant]
    spec fn valid(&self) -> bool {
        regex_valid(self.pattern@)
    }

    /// The regular expression.
    pub closed spec fn pattern_text(&self) -> Seq<char> {
        self.pattern@
    }

    /// The printed regular expression.
    pub closed spec fn pattern_printed(&self) -> Seq<char> {
        self.pattern.printed()
    }

    /// The matcher of the positions.
    pub closed spec fn inner(&self) -> InnerMatcherT {
        self.inner
    }
}

/// The description of a [`RegexPositionsMatcher`] given the printed
/// pattern and the rendered description of the inner matcher.
pub open spec fn regex_positions_text(pattern: Seq<char>, inner: Seq<char>) -> Seq<char> {
    "has match positions for regular expression "@ + pattern + ", which "@ + inner
}

impl<A: Text, InnerMatcherT: ElementwiseMatcher<usize>> Matcher for RegexPositionsMatcher<A, InnerMatcherT> {
    type ActualT = A;

    open spec fn accepts(&self, actual: &A) -> bool {
        exists|v: Vec<usize>|
            v@ == regex_match_starts(self.pattern_text(), actual@) && #[trigger] self.inner().accepts(&v)
    }

    open spec fn describes(&self, r: MatcherResult, d: Description) -> bool {
        exists|d1: Description|
            #[trigger] self.inner().describes(r, d1) && is_text(
                d,
                regex_positions_text(self.pattern_printed(), shown(d1)),
            )
    }

    open spec fn explains(&self, actual: &A, d: Description) -> bool {
        exists|v: Vec<usize>, e1: Description|
            v@ == regex_match_starts(self.pattern_text(), actual@) && #[trigger] self.inner().explains(&v, e1)
                && is_text(d, "whose match positions are "@ + printed_list(v@) + ", "@ + shown(e1))
    }

    fn matches(&self, actual: &A) -> MatcherResult {
        proof {
            use_type_invariant(self);
        }
        let positions = regex_starts(self.pattern.as_str(), actual.as_text());
        let r = self.inner.matches(&positions);
        proof {
            if self.inner().accepts(&positions) {
                assert(self.accepts(actual));
            } else {
                assert forall|v: Vec<usize>| v@ == regex_match_starts(self.pattern@, actual@) implies !#[trigger] self.inner().accepts(&v) by {
                    self.inner.lemma_elementwise(&positions, &v);
                }
            }
        }
        r
    }

    fn describe(&self, matcher_result: MatcherResult) -> Description {
        let d1 = self.inner.describe(matcher_result);
        let t1 = d1.to_chars();
        let mut v: Vec<char> = Vec::new();
        push_str(&mut v, "has match positions for regular expression ");
        self.pattern.print_to(&mut v);
        push_str(&mut v, ", which ");
        push_all(&mut v, t1.as_slice());
        assert(self.inner().describes(matcher_result, d1));
        assert(v@ =~= regex_positions_text(self.pattern_printed(), shown(d1)));
        Description::from_chars(v.as_slice())
    }

    fn explain_match(&self, actual: &A) -> Description {
        proof {
            use_type_invariant(self);
        }
        let positions = regex_starts(self.pattern.as_str(), actual.as_text());
        let e1 = self.inner.explain_match(&positions);
        let t1 = e1.to_chars();
        let mut v: Vec<char> = Vec::new();
        push_str(&mut v, "whose match positions are ");
        positions.print_to(&mut v);
        push_str(&mut v, ", ");
        push_all(&mut v, t1.as_slice());
        assert(self.inner().explains(&positions, e1));
        Description::from_chars(v.as_slice())
    }
}

} // verus!
