//! Assertions: checking a value against a matcher and reporting a failure
//! that says what was expected, what the value was and why it does not
//! match.

use vstd::prelude::*;
use crate::description::{shown, Description};
use crate::internal::source_location::SourceLocation;
use crate::internal::test_outcome::{TestAssertionFailure, TestOutcome};
use crate::matcher::{Matcher, MatcherResult, Printable};
use crate::text::{push_all, push_str};

verus! {

/// Printed values longer than this are pretty-printed in failure reports.
pub const PRETTY_PRINT_LENGTH_THRESHOLD: usize = 60;

/// How a failure report shows the actual value: printed, or pretty-printed
/// when the printed form is longer than the threshold.
pub open spec fn actual_shown<T: Printable + ?Sized>(actual: &T) -> Seq<char> {
    if actual.printed().len() > PRETTY_PRINT_LENGTH_THRESHOLD {
        actual.pretty()
    } else {
        actual.printed()
    }
}

/// `d` indented by one level.
pub open spec fn indented_description(d: Description) -> Description {
    Description { elements: d.elements, initial_indentation: 2 }
}

/// The description of a failed assertion on the expression `actual_expr`,
/// given the matcher's description `expected`, the shown actual value and
/// the matcher's explanation `explanation`.
pub open spec fn failure_text(actual_expr: Seq<char>, expected: Description, actual: Seq<char>, explanation: Description, location: Seq<char>) -> Seq<char> {
    "Value of: "@ + actual_expr + "\nExpected: "@ + shown(expected) + "\nActual: "@ + actual + ",\n"@
        + shown(indented_description(explanation)) + "\n"@ + location
}

/// `f` reports that `matcher` does not match `actual`.
pub open spec fn reports_failure<M: Matcher>(f: TestAssertionFailure, matcher: M, actual: &M::ActualT, actual_expr: Seq<char>, location: SourceLocation) -> bool
    where
        M::ActualT: Printable,
{
    &&& f.custom_message is None
    &&& f.location == location
    &&& exists|d: Description, e: Description|
        #[trigger] matcher.describes(MatcherResult::Match, d) && #[trigger] matcher.explains(actual, e)
            && f.description@ == failure_text(actual_expr, d, actual_shown(actual), e, location.shown())
}

/// A report that `matcher` does not match `actual`, the value of the
/// expression `actual_expr` at `location`.
pub fn create_assertion_failure<M: Matcher>(matcher: &M, actual: &M::ActualT, actual_expr: &str, location: SourceLocation) -> (f: TestAssertionFailure)
    where
        M::ActualT: Printable,
    ensures
        reports_failure(f, *matcher, actual, actual_expr@, location),
{
    let mut formatted: Vec<char> = Vec::new();
    actual.print_to(&mut formatted);
    if formatted.len() > PRETTY_PRINT_LENGTH_THRESHOLD {
        formatted = Vec::new();
        actual.pretty_to(&mut formatted);
    }
    let d = matcher.describe(MatcherResult::Match);
    let e = matcher.explain_match(actual);
    let ghost (gd, ge) = (d, e);
    let expected_text = d.to_chars();
    let explanation = e.indent();
    let explanation_text = explanation.to_chars();
    let location_text = location.to_chars();
    let mut v: Vec<char> = Vec::new();
    push_str(&mut v, "Value of: ");
    push_str(&mut v, actual_expr);
    push_str(&mut v, "\nExpected: ");
    push_all(&mut v, expected_text.as_slice());
    push_str(&mut v, "\nActual: ");
    push_all(&mut v, formatted.as_slice());
    push_str(&mut v, ",\n");
    push_all(&mut v, explanation_text.as_slice());
    push_str(&mut v, "\n");
    push_all(&mut v, location_text.as_slice());
    assert(explanation == indented_description(ge));
    assert(v@ =~= failure_text(actual_expr@, gd, actual_shown(actual), ge, location.shown()));
    assert(matcher.describes(MatcherResult::Match, gd) && matcher.explains(actual, ge));
    let description = crate::text::string_of(v.as_slice());
    TestAssertionFailure::create(description, location)
}

/// Checks `actual`, the value of `actual_expr`, against `matcher`: `Ok` when
/// it matches, else a report of the failure at `location`.
pub fn verify_that<M: Matcher>(actual: &M::ActualT, matcher: &M, actual_expr: &str, location: SourceLocation) -> (r: Result<(), TestAssertionFailure>)
    where
        M::ActualT: Printable,
    ensures
        r is Ok <==> matcher.accepts(actual),
        r matches Err(f) ==> reports_failure(f, *matcher, actual, actual_expr@, location),
{
    match matcher.matches(actual) {
        MatcherResult::Match => Ok(()),
        MatcherResult::NoMatch => Err(create_assertion_failure(matcher, actual, actual_expr, location)),
    }
}

/// Values that assertions check against matchers.
pub trait Subject: Printable + Sized {
    /// Checks whether `expected` matches `self`, the value of `actual_expr`:
    /// `Ok` when it matches, else a report of the failure at `location`.
    fn check<M: Matcher<ActualT = Self>>(&self, expected: M, actual_expr: &str, location: SourceLocation) -> (r:
        Result<(), TestAssertionFailure>)
        ensures
            r is Ok <==> expected.accepts(self),
            r matches Err(f) ==> reports_failure(f, expected, self, actual_expr@, location),
    ;
}

impl<T: Printable> Subject for T {
    fn check<M: Matcher<ActualT = T>>(&self, expected: M, actual_expr: &str, location: SourceLocation) -> (r:
        Result<(), TestAssertionFailure>) {
        verify_that(self, &expected, actual_expr, location)
    }
}

/// A failed result with `message`, reported at `location`.
pub fn create_fail_result(message: String, location: SourceLocation) -> (r: Result<(), TestAssertionFailure>)
    ensures
        r matches Err(f) && f.description == message && f.custom_message is None && f.location == location,
{
    Err(TestAssertionFailure::create(message, location))
}

/// The result of the current test so far: an error once it has failed.
pub fn verify_current_test_outcome(outcome: &TestOutcome, location: SourceLocation) -> (r: Result<(), TestAssertionFailure>)
    ensures
        r is Ok <==> outcome.is_success,
        r matches Err(f) ==> f.description@ == "Test failed"@ && f.custom_message is None && f.location == location,
{
    outcome.current_result(location)
}

/// Attaching messages to assertion results.
pub trait GoogleTestSupport: Sized {
    /// The result with `message` attached to its failure, if it failed.
    fn failure_message(self, message: String) -> Self;

    /// The result with the message that `provider` gives attached to its
    /// failure, if it failed; `provider` runs only then.
    fn with_failure_message<F: FnOnce() -> String>(self, provider: F) -> Self
        requires
            provider.requires(()),
    ;
}

impl<T> GoogleTestSupport for Result<T, TestAssertionFailure> {
    fn failure_message(self, message: String) -> (r: Self)
        ensures
            self is Ok ==> r == self,
            self matches Err(f) ==> r matches Err(g) && g.description == f.description && g.location == f.location
                && g.custom_message == Some(message),
    {
        match self {
            Ok(t) => Ok(t),
            Err(f) => Err(TestAssertionFailure { description: f.description, custom_message: Some(message), location: f.location }),
        }
    }

    fn with_failure_message<F: FnOnce() -> String>(self, provider: F) -> (r: Self)
        ensures
            self is Ok ==> r == self,
            self matches Err(f) ==> (r matches Err(g) && g.description == f.description && g.location == f.location
                && (g.custom_message matches Some(m) && provider.ensures((), m))),
    {
        match self {
            Ok(t) => Ok(t),
            Err(f) => {
                let message = provider();
                Err(TestAssertionFailure { description: f.description, custom_message: Some(message), location: f.location })
            },
        }
    }
}

/// Turning a failure of another kind into a test assertion failure.
pub trait OrFail: Sized {
    /// What a success holds.
    type Output;

    /// The value, or a test assertion failure at `location`.
    fn or_fail(self, location: SourceLocation) -> Result<Self::Output, TestAssertionFailure>;
}

impl<T, E: Printable> OrFail for Result<T, E> {
    type Output = T;

    fn or_fail(self, location: SourceLocation) -> (r: Result<T, TestAssertionFailure>)
        ensures
            self matches Ok(t) ==> r == Ok::<T, TestAssertionFailure>(t),
            self matches Err(e) ==> r matches Err(f) && f.description@ == e.printed() && f.custom_message is None
                && f.location == location,
    {
        match self {
            Ok(t) => Ok(t),
            Err(e) => {
                let mut v: Vec<char> = Vec::new();
                e.print_to(&mut v);
                Err(TestAssertionFailure::create(crate::text::string_of(v.as_slice()), location))
            },
        }
    }
}

/// The failure report of `or_fail` on `None`, given how the type of the
/// missing value is written.
pub open spec fn none_text(shown_type: Seq<char>) -> Seq<char> {
    "called `Option::or_fail()` on a `Option::<"@ + shown_type + ">::None` value"@
}

/// The value of `value`, or a failure at `location` that names `shown_type`,
/// the type of the missing value.
pub fn option_or_fail<T>(value: Option<T>, shown_type: &str, location: SourceLocation) -> (r: Result<T, TestAssertionFailure>)
    ensures
        value matches Some(t) ==> r == Ok::<T, TestAssertionFailure>(t),
        value is None ==> (r matches Err(f) && f.description@ == none_text(shown_type@) && f.custom_message is None
            && f.location == location),
{
    match value {
        Some(t) => Ok(t),
        None => {
            let mut v: Vec<char> = Vec::new();
            push_str(&mut v, "called `Option::or_fail()` on a `Option::<");
            push_str(&mut v, shown_type);
            push_str(&mut v, ">::None` value");
            assert(v@ =~= none_text(shown_type@));
            Err(TestAssertionFailure::create(crate::text::string_of(v.as_slice()), location))
        },
    }
}

} // verus!
