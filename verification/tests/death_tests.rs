use googletest::description::Description;
use googletest::internal::death_tests::{
    death_test_role, death_test_verdict, remove_all, DeathTestRole, DEATH_TEST_LIVED_MARKER,
};
use googletest::internal::scoped_trace::{push_trace, remove_trace, TraceInfo};
use googletest::internal::source_location::SourceLocation;
use googletest::matcher::{Matcher, MatcherResult};
use googletest::matchers::anything_matcher::anything;
use googletest::matchers::contains_substring_matcher::contains_substring;
use googletest::matchers::exit_status_matcher::{exited_with_code, ExitStatus};

fn here() -> SourceLocation {
    SourceLocation::new("tests/death_tests.rs", 1, 1)
}

fn chars(s: &str) -> Vec<char> {
    s.chars().collect()
}

#[test]
fn role_depends_on_the_index_variable() {
    assert_eq!(death_test_role(0, None), DeathTestRole::Oversee);
    assert_eq!(death_test_role(2, Some("2")), DeathTestRole::Execute);
    assert_eq!(death_test_role(1, Some("2")), DeathTestRole::Skip);
    assert_eq!(death_test_role(1, Some("one")), DeathTestRole::Skip);
    assert_eq!(death_test_role(1, Some("")), DeathTestRole::Skip);
}

#[test]
fn remove_all_takes_out_every_occurrence() {
    assert_eq!(remove_all(&chars("abXYcdXY"), &chars("XY")), chars("abcd"));
    assert_eq!(remove_all(&chars("aaa"), &chars("aa")), chars("a"));
    assert_eq!(remove_all(&chars("abc"), &chars("")), chars("abc"));
}

#[test]
fn verdict_reports_a_death_test_that_lived() {
    let stderr = format!("some output{}", DEATH_TEST_LIVED_MARKER);
    let result = death_test_verdict(
        "do_not_die()",
        &exited_with_code(1),
        &anything::<String>(),
        &ExitStatus { code: Some(0) },
        "exit status: 0",
        &stderr,
        here(),
    );
    assert_eq!(
        result.err().unwrap().description,
        "Death test failed to die: do_not_die()\nActual output (stderr):\nsome output"
    );

    let quiet = format!(" \n{}\t", DEATH_TEST_LIVED_MARKER);
    let result = death_test_verdict(
        "do_not_die()",
        &exited_with_code(1),
        &anything::<String>(),
        &ExitStatus { code: Some(0) },
        "exit status: 0",
        &quiet,
        here(),
    );
    assert_eq!(result.err().unwrap().description, "Death test failed to die: do_not_die()\n");
}

#[test]
fn verdict_checks_status_then_output() {
    let stderr = "panicked at boom".to_string();
    let ok = death_test_verdict(
        "die()",
        &exited_with_code(101),
        &contains_substring::<String>("boom"),
        &ExitStatus { code: Some(101) },
        "exit status: 101",
        &stderr,
        here(),
    );
    assert!(ok.is_ok());

    let wrong_status = death_test_verdict(
        "die()",
        &exited_with_code(3),
        &contains_substring::<String>("boom"),
        &ExitStatus { code: Some(101) },
        "exit status: 101",
        &stderr,
        here(),
    );
    assert_eq!(
        wrong_status.err().unwrap().description,
        "Death test died but exit status did not match.\nExpected: exited with code 3\nActual status: exit status: 101\nActual output (stderr):\npanicked at boom"
    );

    let wrong_output = death_test_verdict(
        "die()",
        &exited_with_code(101),
        &contains_substring::<String>("bang"),
        &ExitStatus { code: Some(101) },
        "exit status: 101",
        &stderr,
        here(),
    );
    assert_eq!(
        wrong_output.err().unwrap().description,
        "Death test died but output did not match.\nExpected: contains substring \"bang\"\nActual output (stderr):\npanicked at boom"
    );
}

fn trace(id: usize, message: &str) -> TraceInfo {
    TraceInfo { id, file: "t.rs".to_string(), line: 1, message: message.to_string() }
}

#[test]
fn closing_a_scope_removes_the_newest_trace_with_its_id() {
    let mut stack = vec![trace(1, "a"), trace(2, "b"), trace(1, "c"), trace(3, "d")];
    remove_trace(&mut stack, 1);
    let left: Vec<&str> = stack.iter().map(|t| t.message.as_str()).collect();
    assert_eq!(left, vec!["a", "b", "d"]);
    remove_trace(&mut stack, 7);
    assert_eq!(stack.len(), 3);
}

#[test]
fn matcher_descriptions_are_used_in_verdicts() {
    let d: Description = exited_with_code(3).describe(MatcherResult::Match);
    assert_eq!(d.to_string(), "exited with code 3");
}

#[test]
fn closing_a_scope_undoes_opening_it() {
    let info = |id: usize, message: &str| TraceInfo {
        id,
        file: "tests/death_tests.rs".to_string(),
        line: 1,
        message: message.to_string(),
    };
    let mut stack = vec![info(1, "outer"), info(2, "middle")];
    push_trace(&mut stack, info(3, "inner"));
    let ids: Vec<usize> = stack.iter().map(|t| t.id).collect();
    assert_eq!(ids, vec![1, 2, 3]);
    remove_trace(&mut stack, 3);
    let ids: Vec<usize> = stack.iter().map(|t| t.id).collect();
    assert_eq!(ids, vec![1, 2]);
}
