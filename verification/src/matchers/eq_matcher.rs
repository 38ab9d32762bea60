//! A matcher for values equal to an expected value.

use vstd::prelude::*;
use core::marker::PhantomData;
use crate::description::{is_text, Description};
use crate::matcher::{
    printed_pretty_chars, result_of, text_with, which, which_text, EqualTo, Matcher, MatcherResult,
    Printable,
};
use crate::matcher_support::edit_distance::Mode;
use crate::matcher_support::summarize_diff::{create_diff, is_diff};
use crate::text::{lines, push_all, push_str};

verus! {

/// Matches a value equal (in the sense of [`EqualTo`]) to `expected`; its
/// difference summaries are not colored.
pub fn eq<A: ?Sized, T>(expected: T) -> (m: EqMatcher<A, T>)
    ensures
        m.expected == expected,
        !m.color,
{
    EqMatcher { expected, color: false, phantom: PhantomData }
}

/// Matches a value equal to `expected`; `color` says whether the difference
/// summary in its explanation is colored (the caller decides, from where
/// the output goes).
pub struct EqMatcher<A: ?Sized, T> {
    pub expected: T,
    pub color: bool,
    pub phantom: PhantomData<A>,
}

impl<A: ?Sized, T> EqMatcher<A, T> {
    /// The same matcher, with colored difference summaries when `color`.
    pub fn colored(self, color: bool) -> (m: EqMatcher<A, T>)
        ensures
            m.expected == self.expected,
            m.color == color,
    {
        EqMatcher { expected: self.expected, color, phantom: self.phantom }
    }
}

/// The one-line description of [`eq`] for a result.
pub open spec fn eq_text(printed: Seq<char>, r: MatcherResult) -> Seq<char> {
    match r {
        MatcherResult::Match => "is equal to "@ + printed,
        MatcherResult::NoMatch => "isn't equal to "@ + printed,
    }
}

impl<A: ?Sized, T: Printable> EqMatcher<A, T> {
    fn text_chars(&self, r: MatcherResult) -> (v: Vec<char>)
        ensures
            v@ == eq_text(self.expected.printed(), r),
    {
        match r {
            MatcherResult::Match => text_with("is equal to ", &self.expected),
            MatcherResult::NoMatch => text_with("isn't equal to ", &self.expected),
        }
    }
}

/// The texts that the explanation of [`eq`] diffs, from the pretty-printed
/// actual and expected values: for two printed multi-line strings, the
/// strings they stand for.
pub open spec fn diffed_texts(actual: Seq<char>, expected: Seq<char>) -> (Seq<char>, Seq<char>) {
    if is_multiline_string_debug(actual) && is_multiline_string_debug(expected) {
        (display_output(actual), display_output(expected))
    } else {
        (actual, expected)
    }
}

/// The difference summary that follows the explanation of [`eq`], colored
/// when `color`.
pub fn debug_diff(actual: &[char], expected: &[char], color: bool) -> (r: String)
    ensures
        is_diff(lines(diffed_texts(actual@, expected@).0), lines(diffed_texts(actual@, expected@).1), Mode::Exact, color, r@),
{
    if multiline_string_debug(actual) && multiline_string_debug(expected) {
        let a = to_display_output(actual);
        let e = to_display_output(expected);
        let sa = crate::text::string_of(a.as_slice());
        let se = crate::text::string_of(e.as_slice());
        create_diff(sa.as_str(), se.as_str(), Mode::Exact, color)
    } else {
        let sa = crate::text::string_of(actual);
        let se = crate::text::string_of(expected);
        create_diff(sa.as_str(), se.as_str(), Mode::Exact, color)
    }
}

impl<A: EqualTo<T> + Printable + ?Sized, T: Printable> Matcher for EqMatcher<A, T> {
    type ActualT = A;

    open spec fn accepts(&self, actual: &A) -> bool {
        actual.equal_to(&self.expected)
    }

    open spec fn describes(&self, r: MatcherResult, d: Description) -> bool {
        is_text(d, eq_text(self.expected.printed(), r))
    }

    open spec fn explains(&self, actual: &A, d: Description) -> bool {
        let texts = diffed_texts(actual.pretty(), self.expected.pretty());
        exists|diff: Seq<char>|
            #[trigger] is_diff(lines(texts.0), lines(texts.1), Mode::Exact, self.color, diff) && is_text(
                d,
                which_text(eq_text(self.expected.printed(), result_of(self.accepts(actual)))) + diff,
            )
    }

    fn matches(&self, actual: &A) -> MatcherResult {
        MatcherResult::from_bool(actual.is_equal_to(&self.expected))
    }

    fn describe(&self, matcher_result: MatcherResult) -> Description {
        let v = self.text_chars(matcher_result);
        Description::from_chars(v.as_slice())
    }

    fn explain_match(&self, actual: &A) -> Description {
        let r = self.matches(actual);
        let v = self.text_chars(r);
        let a = printed_pretty_chars(actual);
        let e = printed_pretty_chars(&self.expected);
        let diff = debug_diff(a.as_slice(), e.as_slice(), self.color);
        let mut out: Vec<char> = Vec::new();
        push_str(&mut out, "which ");
        push_all(&mut out, v.as_slice());
        push_str(&mut out, diff.as_str());
        proof {
            reveal_strlit("which ");
        }
        assert(out@ =~= which_text(v@) + diff@);
        Description::from_chars(out.as_slice())
    }
}

} // verus!

verus! {

/// `s` is the printed form of a string of several lines: it is quoted,
/// holds escaped line breaks and no raw one.
pub open spec fn is_multiline_string_debug(s: Seq<char>) -> bool {
    &&& s.len() > 0
    &&& s[0] == '"'
    &&& s.last() == '"'
    &&& !s.contains('\n')
    &&& crate::text::contains_seq(s, seq!['\\', 'n'])
}

/// `s` with each escaped line break (a backslash and an `n`), found from the
/// left, turned into a line break.
pub open spec fn unescape_newlines(s: Seq<char>) -> Seq<char>
    decreases s.len(),
{
    if s.len() == 0 {
        s
    } else if s.len() >= 2 && s[0] == '\\' && s[1] == 'n' {
        seq!['\n'] + unescape_newlines(s.skip(2))
    } else {
        seq![s[0]] + unescape_newlines(s.drop_first())
    }
}

/// The text that a quoted printed string stands for, its escaped line
/// breaks turned into line breaks.
pub open spec fn display_output(s: Seq<char>) -> Seq<char> {
    unescape_newlines(s.subrange(1, s.len() - 1))
}

/// Whether `s` is the printed form of a string of several lines.
pub fn multiline_string_debug(s: &[char]) -> (b: bool)
    ensures
        b == is_multiline_string_debug(s@),
{
    if s.len() < 1 || s[0] != '"' || s[s.len() - 1] != '"' {
        return false;
    }
    let mut i: usize = 0;
    while i < s.len()
        invariant
            i <= s@.len(),
            forall|k: int| 0 <= k < i ==> s@[k] != '\n',
        decreases s@.len() - i,
    {
        if s[i] == '\n' {
            assert(s@.contains('\n'));
            return false;
        }
        i = i + 1;
    }
    let escaped: Vec<char> = vec!['\\', 'n'];
    assert(escaped@ =~= seq!['\\', 'n']);
    crate::text::contains_chars(s, escaped.as_slice())
}

/// The text that the quoted printed string `s` stands for.
pub fn to_display_output(s: &[char]) -> (r: Vec<char>)
    requires
        s@.len() >= 2,
    ensures
        r@ == display_output(s@),
{
    let inner = crate::text::copy_range(s, 1, s.len() - 1);
    let ghost t = inner@;
    let mut r: Vec<char> = Vec::new();
    let mut i: usize = 0;
    assert(t.skip(0) =~= t);
    assert(r@ + unescape_newlines(t) =~= unescape_newlines(t));
    while i < inner.len()
        invariant
            inner@ == t,
            i <= t.len(),
            r@ + unescape_newlines(t.skip(i as int)) == unescape_newlines(t),
        decreases t.len() - i,
    {
        if i + 1 < inner.len() && inner[i] == '\\' && inner[i + 1] == 'n' {
            r.push('\n');
            proof {
                assert(t.skip(i as int).skip(2) =~= t.skip(i + 2));
            }
            i = i + 2;
        } else {
            r.push(inner[i]);
            proof {
                assert(t.skip(i as int).drop_first() =~= t.skip(i + 1));
            }
            i = i + 1;
        }
    }
    assert(t.skip(t.len() as int) =~= Seq::<char>::empty());
    assert(t.skip(0) =~= t);
    r
}

} // verus!
