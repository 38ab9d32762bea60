//! The outcome of a test: whether any of its assertions failed, and the
//! reports of failed assertions.

use vstd::prelude::*;
use crate::internal::source_location::SourceLocation;
use crate::text::{push_all, push_str};

verus! {

/// Whether the test it belongs to has succeeded so far.
pub struct TestOutcome {
    pub is_success: bool,
}

impl TestOutcome {
    /// A successful outcome.
    pub fn new() -> (o: TestOutcome)
        ensures
            o.is_success,
    {
        TestOutcome { is_success: true }
    }

    /// Marks the test as failed.
    pub fn fail(&mut self)
        ensures
            !final(self).is_success,
    {
        self.is_success = false;
    }

    /// Whether the test has succeeded so far.
    pub fn is_success(&self) -> (b: bool)
        ensures
            b == self.is_success,
    {
        self.is_success
    }

    /// Reads the same flag as [`TestOutcome::is_success`]: it gives `true`
    /// while the test has succeeded.
    pub fn is_failed(&self) -> (b: bool)
        ensures
            b == self.is_success,
    {
        self.is_success
    }

    /// The result that the current test has so far: an assertion failure
    /// reading "Test failed" once it has failed.
    pub fn current_result(&self, location: SourceLocation) -> (r: Result<(), TestAssertionFailure>)
        ensures
            self.is_success <==> r is Ok,
            r matches Err(f) ==> f.description@ == "Test failed"@ && f.custom_message is None
                && f.location == location,
    {
        if self.is_success {
            Ok(())
        } else {
            Err(TestAssertionFailure::create(String::from_str("Test failed"), location))
        }
    }

    /// The result of a test when it ends: a failure if any assertion failed
    /// or the test body returned an error.
    pub fn close(&self, test_returned_ok: bool) -> (r: Result<(), TestFailure>)
        ensures
            r is Ok <==> (self.is_success && test_returned_ok),
    {
        if self.is_success && test_returned_ok {
            Ok(())
        } else {
            Err(TestFailure)
        }
    }
}

/// Once failed, an outcome stays failed: of the calls on an outcome only
/// [`TestOutcome::fail`] changes it, and it leaves it failed; so along any
/// run of calls that starts from a failed outcome, each outcome is failed.
pub proof fn law_failure_is_permanent(outcomes: Seq<TestOutcome>)
    requires
        outcomes.len() >= 1,
        !outcomes[0].is_success,
        forall|i: int|
            0 <= i < outcomes.len() - 1 ==> !#[trigger] outcomes[i + 1].is_success || outcomes[i + 1]
                == outcomes[i],
    ensures
        forall|i: int| 0 <= i < outcomes.len() ==> !#[trigger] outcomes[i].is_success,
    decreases outcomes.len(),
{
    if outcomes.len() > 1 {
        let shorter = outcomes.drop_last();
        assert forall|i: int| 0 <= i < shorter.len() - 1 implies !#[trigger] shorter[i + 1].is_success
            || shorter[i + 1] == shorter[i] by {
            assert(shorter[i + 1] == outcomes[i + 1]);
            assert(shorter[i] == outcomes[i]);
        }
        law_failure_is_permanent(shorter);
        assert forall|i: int| 0 <= i < outcomes.len() implies !#[trigger] outcomes[i].is_success by {
            if i < outcomes.len() - 1 {
                assert(shorter[i] == outcomes[i]);
            } else {
                assert(shorter[i - 1] == outcomes[i - 1]);
                assert(!outcomes[(i - 1) + 1].is_success || outcomes[(i - 1) + 1] == outcomes[i - 1]);
            }
        }
    }
}

/// A marker that a test has failed; the failure messages were printed
/// before.
pub struct TestFailure;

impl TestFailure {
    /// What the marker displays as.
    pub fn message() -> (s: String)
        ensures
            s@ == "See failure output above\n"@,
    {
        String::from_str("See failure output above\n")
    }
}

/// A report that a single test assertion failed.
pub struct TestAssertionFailure {
    /// A human-readable description of the failure.
    pub description: String,
    /// A message that the user attached to the assertion.
    pub custom_message: Option<String>,
    /// Where the assertion stands.
    pub location: SourceLocation,
}

impl TestAssertionFailure {
    /// A failure with `description` at `location`, without a custom
    /// message.
    pub fn create(description: String, location: SourceLocation) -> (f: TestAssertionFailure)
        ensures
            f.description == description,
            f.custom_message is None,
            f.location == location,
    {
        TestAssertionFailure { description, custom_message: None, location }
    }

    /// The same failure at the location `file:line:column`.
    pub fn with_fake_location(self, file: &str, line: u32, column: u32) -> (f: TestAssertionFailure)
        ensures
            f.description == self.description,
            f.custom_message == self.custom_message,
            f.location.file@ == file@,
            f.location.line == line,
            f.location.column == column,
    {
        TestAssertionFailure {
            description: self.description,
            custom_message: self.custom_message,
            location: SourceLocation::new(file, line, column),
        }
    }

    /// How the failure is displayed: its description, the custom message
    /// if any, and `  at ` before the displayed location, each on a line of
    /// its own.
    pub open spec fn shown(&self) -> Seq<char> {
        self.description@ + seq!['\n'] + match self.custom_message {
            Some(m) => m@ + seq!['\n'],
            None => Seq::empty(),
        } + "  at "@ + self.location.shown() + seq!['\n']
    }

    /// The displayed failure.
    pub fn to_string(&self) -> (s: String)
        ensures
            s@ == self.shown(),
    {
        let mut v: Vec<char> = Vec::new();
        push_str(&mut v, self.description.as_str());
        v.push('\n');
        match &self.custom_message {
            Some(m) => {
                push_str(&mut v, m.as_str());
                v.push('\n');
            },
            None => {},
        }
        push_str(&mut v, "  at ");
        let loc = self.location.to_chars();
        push_all(&mut v, loc.as_slice());
        v.push('\n');
        assert(v@ =~= self.shown());
        crate::text::string_of(v.as_slice())
    }
}

} // verus!
