//! A matcher for strings that contain a match of a regular expression.

use vstd::prelude::*;
use core::marker::PhantomData;
use crate::description::{is_text, Description};
use crate::matcher::{result_of, text_with, which, which_text, Matcher, MatcherResult, Printable, Text};

verus! {

/// Whether `pattern` is a regular expression that the `regex` crate
/// accepts.
pub uninterp spec fn regex_valid(pattern: Seq<char>) -> bool;

/// Whether the regular expression `pattern` matches somewhere in `text`.
pub uninterp spec fn regex_finds(pattern: Seq<char>, text: Seq<char>) -> bool;

/// The byte offsets at which the successive non-overlapping matches of the
/// regular expression `pattern` in `text` start.
pub uninterp spec fn regex_match_starts(pattern: Seq<char>, text: Seq<char>) -> Seq<usize>;

/// Trusted: `regex::Regex::new`. Whether it accepts `pattern` is left to the
/// name `regex_valid`.
#[verifier::external_body]
pub(crate) fn regex_is_valid(pattern: &str) -> (r: bool)
    ensures
        r == regex_valid(pattern@),
{
    regex::Regex::new(pattern).is_ok()
}

/// Trusted: `regex::Regex::is_match` on the expression that
/// `regex::Regex::new` compiled from `pattern`, which it accepts. Where it
/// finds a match is left to the name `regex_finds`.
#[verifier::external_body]
fn regex_is_match(pattern: &str, text: &str) -> (r: bool)
    requires
        regex_valid(pattern@),
    ensures
        r == regex_finds(pattern@, text@),
{
    regex::Regex::new(pattern).unwrap().is_match(text)
}

/// Trusted: `regex::Regex::find_iter` on the expression that
/// `regex::Regex::new` compiled from `pattern`, each match taken by its
/// start (`regex::Match::start`, a byte offset). Which matches it finds is
/// left to the name `regex_match_starts`.
#[verifier::external_body]
pub(crate) fn regex_starts(pattern: &str, text: &str) -> (r: Vec<usize>)
    requires
        regex_valid(pattern@),
    ensures
        r@ == regex_match_starts(pattern@, text@),
{
    regex::Regex::new(pattern).unwrap().find_iter(text).map(|m| m.start()).collect()
}

/// Matches a string that contains a match of the regular expression
/// `pattern`, which must be valid.
pub fn contains_regex<A>(pattern: &str) -> (m: ContainsRegexMatcher<A>)
    requires
        regex_valid(pattern@),
    ensures
        m.pattern_text() == pattern@,
{
    ContainsRegexMatcher { pattern: pattern.to_owned(), phantom: PhantomData }
}

/// The matcher of [`contains_regex`] when `pattern` is a valid regular
/// expression, else none.
pub fn try_contains_regex<A>(pattern: &str) -> (m: Option<ContainsRegexMatcher<A>>)
    ensures
        m is Some <==> regex_valid(pattern@),
        m matches Some(x) ==> x.pattern_text() == pattern@,
{
    if regex_is_valid(pattern) {
        Some(contains_regex(pattern))
    } else {
        None
    }
}

/// Matches a string that contains a match of a regular expression.
pub struct ContainsRegexMatcher<A> {
    pattern: String,
    phantom: PhantomData<A>,
}

/// The description of [`contains_regex`] given the printed pattern.
pub open spec fn regex_text(printed: Seq<char>, r: MatcherResult) -> Seq<char> {
    match r {
        MatcherResult::Match => "contains the regular expression "@ + printed,
        MatcherResult::NoMatch => "doesn't contain the regular expression "@ + printed,
    }
}

impl<A> ContainsRegexMatcher<A> {
    /// The pattern is a valid regular expression.
    #[verifier::type_invariant]
    spec fn valid(&self) -> bool {
        regex_valid(self.pattern@)
    }

    /// The regular expression.
    pub closed spec fn pattern_text(&self) -> Seq<char> {
        self.pattern@
    }

    /// The printed regular expression.
    pub closed spec fn pattern_printed(&self) -> Seq<char> {
        self.pattern.printed()
    }

    fn text_chars(&self, r: MatcherResult) -> (v: Vec<char>)
        ensures
            v@ == regex_text(self.pattern_printed(), r),
    {
        match r {
            MatcherResult::Match => text_with("contains the regular expression ", &self.pattern),
            MatcherResult::NoMatch => text_with("doesn't contain the regular expression ", &self.pattern),
        }
    }
}

impl<A: Text> Matcher for ContainsRegexMatcher<A> {
    type ActualT = A;

    open spec fn accepts(&self, actual: &A) -> bool {
        regex_finds(self.pattern_text(), actual@)
    }

    open spec fn describes(&self, r: MatcherResult, d: Description) -> bool {
        is_text(d, regex_text(self.pattern_printed(), r))
    }

    open spec fn explains(&self, actual: &A, d: Description) -> bool {
        is_text(d, which_text(regex_text(self.pattern_printed(), result_of(self.accepts(actual)))))
    }

    fn matches(&self, actual: &A) -> MatcherResult {
        proof {
            use_type_invariant(self);
        }
        MatcherResult::from_bool(regex_is_match(self.pattern.as_str(), actual.as_text()))
    }

    fn describe(&self, matcher_result: MatcherResult) -> Description {
        let v = self.text_chars(matcher_result);
        Description::from_chars(v.as_slice())
    }

    fn explain_match(&self, actual: &A) -> Description {
        let r = self.matches(actual);
        let v = self.text_chars(r);
        which(v.as_slice())
    }
}

} // verus!
