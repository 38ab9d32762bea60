//! The decisions of death tests: which role a process plays for a death
//! test, and what the overseeing process concludes from how the child
//! ended and what it wrote to its standard error.
//!
//! Spawning the child, reading the environment and counting the death tests
//! of the running test are left to the caller, which hands the results over
//! as plain values.

use vstd::prelude::*;
use crate::description::{shown, Description};
use crate::internal::source_location::SourceLocation;
use crate::internal::test_outcome::TestAssertionFailure;
use crate::internal::test_sharding::{parse_u64, parsed_u64};
use crate::matcher::{Matcher, MatcherResult};
use crate::matchers::exit_status_matcher::ExitStatus;
use crate::text::{chars_of, occurs_at, occurs_at_exec, push_all, push_str, string_of};

verus! {

/// The environment variable that tells a child process which death test of
/// its test to run.
pub const INTERNAL_DEATH_TEST_INDEX_VAR: &'static str = "GOOGLETEST_INTERNAL_DEATH_TEST_INDEX";

/// What a child process writes to its standard error when the expression of
/// its death test returned instead of ending the process.
pub const DEATH_TEST_LIVED_MARKER: &'static str = "___GOOGLETEST_DEATH_TEST_LIVED_7dfb4a88e2___";

/// The part a process plays for one death test.
#[derive(PartialEq, Eq, Structural, Debug, Clone, Copy)]
pub enum DeathTestRole {
    /// The parent process, which spawns a child.
    Oversee,
    /// A child process, and this is the death test it was spawned for.
    Execute,
    /// A child process, but this is not the death test it was spawned for.
    Skip,
}

/// The role of the death test with index `index` in its test, given the
/// value of [`INTERNAL_DEATH_TEST_INDEX_VAR`] if it is set: without it the
/// process oversees; with it, the death test runs only when the value is
/// its index in decimal.
pub open spec fn role_for(index: usize, target: Option<Seq<char>>) -> DeathTestRole {
    match target {
        None => DeathTestRole::Oversee,
        Some(t) => match parsed_u64(t) {
            Some(n) => if n == index as u64 {
                DeathTestRole::Execute
            } else {
                DeathTestRole::Skip
            },
            None => DeathTestRole::Skip,
        },
    }
}

/// The role of the death test with index `index` (see [`role_for`]).
pub fn death_test_role(index: usize, target: Option<&str>) -> (r: DeathTestRole)
    ensures
        r == role_for(
            index,
            match target {
                Some(t) => Some(t@),
                None => None,
            },
        ),
{
    match target {
        None => DeathTestRole::Oversee,
        Some(t) => match parse_u64(t) {
            Some(n) => {
                if n == index as u64 {
                    DeathTestRole::Execute
                } else {
                    DeathTestRole::Skip
                }
            },
            None => DeathTestRole::Skip,
        },
    }
}

/// Whether `c` has the Unicode property White_Space, as `char::is_whitespace`
/// documents it.
pub open spec fn is_white_space(c: char) -> bool {
    ||| '\t' <= c <= '\r'
    ||| c == ' '
    ||| c == '\u{85}'
    ||| c == '\u{a0}'
    ||| c == '\u{1680}'
    ||| '\u{2000}' <= c <= '\u{200a}'
    ||| c == '\u{2028}'
    ||| c == '\u{2029}'
    ||| c == '\u{202f}'
    ||| c == '\u{205f}'
    ||| c == '\u{3000}'
}

/// `s` is empty once white space is trimmed from both ends.
pub open spec fn is_blank(s: Seq<char>) -> bool {
    forall|i: int| 0 <= i < s.len() ==> is_white_space(#[trigger] s[i])
}

/// `s` with the non-overlapping occurrences of `m`, found from the left,
/// taken out (what `str::replace` with an empty replacement gives).
pub open spec fn without(s: Seq<char>, m: Seq<char>) -> Seq<char>
    decreases s.len(),
{
    if m.len() == 0 || s.len() == 0 {
        s
    } else if occurs_at(s, m, 0) {
        without(s.skip(m.len() as int), m)
    } else {
        seq![s[0]] + without(s.skip(1), m)
    }
}

/// The report of a death test whose expression returned: the expression
/// and, unless it is blank, what the child wrote besides the marker.
pub open spec fn lived_text(expr: Seq<char>, stderr: Seq<char>) -> Seq<char> {
    let cleaned = without(stderr, DEATH_TEST_LIVED_MARKER@);
    "Death test failed to die: "@ + expr + "\n"@ + if is_blank(cleaned) {
        Seq::empty()
    } else {
        "Actual output (stderr):\n"@ + cleaned
    }
}

/// The report of a death test whose child ended with another status than
/// expected, given the description of the expected status and the printed
/// status.
pub open spec fn status_text(expected: Seq<char>, status: Seq<char>, stderr: Seq<char>) -> Seq<char> {
    "Death test died but exit status did not match.\nExpected: "@ + expected + "\nActual status: "@
        + status + "\n"@ + if is_blank(stderr) {
        Seq::empty()
    } else {
        "Actual output (stderr):\n"@ + stderr
    }
}

/// The report of a death test whose child wrote other output than
/// expected, given the description of the expected output.
pub open spec fn output_text(expected: Seq<char>, stderr: Seq<char>) -> Seq<char> {
    "Death test died but output did not match.\nExpected: "@ + expected + "\nActual output (stderr):\n"@
        + stderr
}

/// Whether `c` has the Unicode property White_Space.
pub fn white_space(c: char) -> (b: bool)
    ensures
        b == is_white_space(c),
{
    ('\t' <= c && c <= '\r') || c == ' ' || c == '\u{85}' || c == '\u{a0}' || c == '\u{1680}' || (
    '\u{2000}' <= c && c <= '\u{200a}') || c == '\u{2028}' || c == '\u{2029}' || c == '\u{202f}'
        || c == '\u{205f}' || c == '\u{3000}'
}

/// Whether `s` is blank (see [`is_blank`]).
pub fn blank(s: &[char]) -> (b: bool)
    ensures
        b == is_blank(s@),
{
    let mut i: usize = 0;
    while i < s.len()
        invariant
            i <= s@.len(),
            forall|k: int| 0 <= k < i ==> is_white_space(#[trigger] s@[k]),
        decreases s@.len() - i,
    {
        if !white_space(s[i]) {
            return false;
        }
        i = i + 1;
    }
    true
}

/// `s` with the occurrences of `m` taken out (see [`without`]).
pub fn remove_all(s: &[char], m: &[char]) -> (r: Vec<char>)
    ensures
        r@ == without(s@, m@),
{
    if m.len() == 0 {
        let mut v: Vec<char> = Vec::new();
        push_all(&mut v, s);
        return v;
    }
    let mut out: Vec<char> = Vec::new();
    let mut i: usize = 0;
    assert(s@.skip(0) =~= s@);
    assert(out@ + without(s@, m@) =~= without(s@, m@));
    while i < s.len()
        invariant
            m@.len() > 0,
            i <= s@.len(),
            out@ + without(s@.skip(i as int), m@) == without(s@, m@),
        decreases s@.len() - i,
    {
        let ghost rest = s@.skip(i as int);
        if occurs_at_exec(s, m, i) {
            proof {
                assert(rest.subrange(0, m@.len() as int) =~= s@.subrange(i as int, i + m@.len()));
                assert(occurs_at(rest, m@, 0));
                assert(rest.skip(m@.len() as int) =~= s@.skip(i + m@.len()));
            }
            i = i + m.len();
        } else {
            proof {
                if occurs_at(rest, m@, 0) {
                    assert(rest.subrange(0, m@.len() as int) =~= s@.subrange(i as int, i + m@.len()));
                }
                assert(rest.skip(1) =~= s@.skip(i + 1));
                assert(rest[0] == s@[i as int]);
                assert(out@.push(s@[i as int]) + without(s@.skip(i + 1), m@) =~= out@ + (seq![rest[0]]
                    + without(rest.skip(1), m@)));
            }
            out.push(s[i]);
            i = i + 1;
        }
    }
    assert(s@.skip(i as int).len() == 0);
    assert(out@ + without(s@.skip(i as int), m@) =~= out@);
    out
}

/// The verdict of the overseeing process on a death test of the expression
/// `expr_str`, given how the child ended (`status`, printed as
/// `status_debug`) and what it wrote to its standard error: a failure when
/// the expression returned (the child wrote the marker), when the status
/// does not match `status_matcher`, or when the output does not match
/// `output_matcher`; a success otherwise.
pub fn death_test_verdict<SM: Matcher<ActualT = ExitStatus>, OM: Matcher<ActualT = String>>(
    expr_str: &str,
    status_matcher: &SM,
    output_matcher: &OM,
    status: &ExitStatus,
    status_debug: &str,
    raw_stderr: &String,
    location: SourceLocation,
) -> (r: Result<(), TestAssertionFailure>)
    ensures
        r is Ok <==> (!crate::text::contains_seq(raw_stderr@, DEATH_TEST_LIVED_MARKER@)
            && status_matcher.accepts(status) && output_matcher.accepts(raw_stderr)),
        r matches Err(f) ==> f.custom_message is None && f.location == location,
        crate::text::contains_seq(raw_stderr@, DEATH_TEST_LIVED_MARKER@) ==> (r matches Err(f)
            && f.description@ == lived_text(expr_str@, raw_stderr@)),
        !crate::text::contains_seq(raw_stderr@, DEATH_TEST_LIVED_MARKER@) && !status_matcher.accepts(status)
            ==> (r matches Err(f) && exists|d: Description|
            #[trigger] status_matcher.describes(MatcherResult::Match, d) && f.description@ == status_text(
                shown(d),
                status_debug@,
                raw_stderr@,
            )),
        !crate::text::contains_seq(raw_stderr@, DEATH_TEST_LIVED_MARKER@) && status_matcher.accepts(status)
            && !output_matcher.accepts(raw_stderr) ==> (r matches Err(f) && exists|d: Description|
            #[trigger] output_matcher.describes(MatcherResult::Match, d) && f.description@ == output_text(
                shown(d),
                raw_stderr@,
            )),
{
    let err = chars_of(raw_stderr.as_str());
    let marker = chars_of(DEATH_TEST_LIVED_MARKER);
    if crate::text::contains_chars(err.as_slice(), marker.as_slice()) {
        let cleaned = remove_all(err.as_slice(), marker.as_slice());
        let mut v: Vec<char> = Vec::new();
        push_str(&mut v, "Death test failed to die: ");
        push_str(&mut v, expr_str);
        push_str(&mut v, "\n");
        if !blank(cleaned.as_slice()) {
            push_str(&mut v, "Actual output (stderr):\n");
            push_all(&mut v, cleaned.as_slice());
        }
        assert(v@ =~= lived_text(expr_str@, raw_stderr@));
        return Err(TestAssertionFailure::create(string_of(v.as_slice()), location));
    }
    match status_matcher.matches(status) {
        MatcherResult::Match => match output_matcher.matches(raw_stderr) {
            MatcherResult::Match => Ok(()),
            MatcherResult::NoMatch => {
                let d = output_matcher.describe(MatcherResult::Match);
                let t = d.to_chars();
                let mut v: Vec<char> = Vec::new();
                push_str(&mut v, "Death test died but output did not match.\nExpected: ");
                push_all(&mut v, t.as_slice());
                push_str(&mut v, "\nActual output (stderr):\n");
                push_all(&mut v, err.as_slice());
                assert(v@ =~= output_text(shown(d), raw_stderr@));
                Err(TestAssertionFailure::create(string_of(v.as_slice()), location))
            },
        },
        MatcherResult::NoMatch => {
            let d = status_matcher.describe(MatcherResult::Match);
            let t = d.to_chars();
            let mut v: Vec<char> = Vec::new();
            push_str(&mut v, "Death test died but exit status did not match.\nExpected: ");
            push_all(&mut v, t.as_slice());
            push_str(&mut v, "\nActual status: ");
            push_str(&mut v, status_debug);
            push_str(&mut v, "\n");
            if !blank(err.as_slice()) {
                push_str(&mut v, "Actual output (stderr):\n");
                push_all(&mut v, err.as_slice());
            }
            assert(v@ =~= status_text(shown(d), status_debug@, raw_stderr@));
            Err(TestAssertionFailure::create(string_of(v.as_slice()), location))
        },
    }
}

} // verus!
