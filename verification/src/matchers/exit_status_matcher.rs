//! Matchers for the exit status of a process.

use vstd::prelude::*;
use crate::description::{is_text, Description};
use crate::matcher::{which, which_text, result_of, Matcher, MatcherResult};
use crate::text::{chars_of, int_text, push_int, push_str};

verus! {

/// How a process ended: its exit code, or none when a signal ended it.
pub struct ExitStatus {
    pub code: Option<i32>,
}

impl ExitStatus {
    /// Whether the process exited with code 0.
    pub open spec fn succeeded(&self) -> bool {
        self.code == Some(0i32)
    }
}

/// Matches a process that exited with the code `expected`.
pub fn exited_with_code(expected: i32) -> (m: ExitedWithCodeMatcher)
    ensures
        m.expected == expected,
{
    ExitedWithCodeMatcher { expected }
}

/// Matches a process that exited with the code `expected`.
pub struct ExitedWithCodeMatcher {
    pub expected: i32,
}

/// The description of [`exited_with_code`].
pub open spec fn exited_text(expected: i32, r: MatcherResult) -> Seq<char> {
    match r {
        MatcherResult::Match => "exited with code "@ + int_text(expected as int),
        MatcherResult::NoMatch => "did not exit with code "@ + int_text(expected as int),
    }
}

impl ExitedWithCodeMatcher {
    fn text_chars(&self, r: MatcherResult) -> (v: Vec<char>)
        ensures
            v@ == exited_text(self.expected, r),
    {
        let mut v: Vec<char> = Vec::new();
        match r {
            MatcherResult::Match => push_str(&mut v, "exited with code "),
            MatcherResult::NoMatch => push_str(&mut v, "did not exit with code "),
        }
        push_int(&mut v, self.expected as i128);
        v
    }
}

impl Matcher for ExitedWithCodeMatcher {
    type ActualT = ExitStatus;

    open spec fn accepts(&self, actual: &ExitStatus) -> bool {
        actual.code == Some(self.expected)
    }

    open spec fn describes(&self, r: MatcherResult, d: Description) -> bool {
        is_text(d, exited_text(self.expected, r))
    }

    open spec fn explains(&self, actual: &ExitStatus, d: Description) -> bool {
        is_text(d, which_text(exited_text(self.expected, result_of(self.accepts(actual)))))
    }

    fn matches(&self, actual: &ExitStatus) -> MatcherResult {
        match actual.code {
            Some(c) => MatcherResult::from_bool(c == self.expected),
            None => MatcherResult::NoMatch,
        }
    }

    fn describe(&self, matcher_result: MatcherResult) -> Description {
        let v = self.text_chars(matcher_result);
        Description::from_chars(v.as_slice())
    }

    fn explain_match(&self, actual: &ExitStatus) -> Description {
        let r = self.matches(actual);
        let v = self.text_chars(r);
        which(v.as_slice())
    }
}

/// Matches a process that did not exit successfully.
pub fn died() -> (m: DiedMatcher) {
    DiedMatcher
}

/// Matches a process that did not exit successfully.
pub struct DiedMatcher;

/// The description of [`died`].
pub open spec fn died_text(r: MatcherResult) -> Seq<char> {
    match r {
        MatcherResult::Match => "died (non-zero exit code or signaled)"@,
        MatcherResult::NoMatch => "did not die (exited successfully with code 0)"@,
    }
}

fn died_chars(r: MatcherResult) -> (v: Vec<char>)
    ensures
        v@ == died_text(r),
{
    match r {
        MatcherResult::Match => chars_of("died (non-zero exit code or signaled)"),
        MatcherResult::NoMatch => chars_of("did not die (exited successfully with code 0)"),
    }
}

impl Matcher for DiedMatcher {
    type ActualT = ExitStatus;

    open spec fn accepts(&self, actual: &ExitStatus) -> bool {
        !actual.succeeded()
    }

    open spec fn describes(&self, r: MatcherResult, d: Description) -> bool {
        is_text(d, died_text(r))
    }

    open spec fn explains(&self, actual: &ExitStatus, d: Description) -> bool {
        is_text(d, which_text(died_text(result_of(!actual.succeeded()))))
    }

    fn matches(&self, actual: &ExitStatus) -> MatcherResult {
        match actual.code {
            Some(c) => MatcherResult::from_bool(c != 0),
            None => MatcherResult::Match,
        }
    }

    fn describe(&self, matcher_result: MatcherResult) -> Description {
        let v = died_chars(matcher_result);
        Description::from_chars(v.as_slice())
    }

    fn explain_match(&self, actual: &ExitStatus) -> Description {
        let r = self.matches(actual);
        let v = died_chars(r);
        which(v.as_slice())
    }
}

} // verus!
