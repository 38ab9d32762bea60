use googletest::assertions::{
    create_fail_result, verify_current_test_outcome, verify_that, GoogleTestSupport, OrFail,
};
use googletest::internal::source_location::SourceLocation;
use googletest::internal::test_outcome::{TestAssertionFailure, TestFailure, TestOutcome};
use googletest::internal::test_sharding::{parse_u64, test_should_run, Sharding};
use googletest::matcher::{Matcher, MatcherResult};
use googletest::matcher_support::match_matrix::{MatchMatrix, Requirements};
use googletest::matchers::all_matcher::AllMatcher;
use googletest::matchers::eq_matcher::eq;
use googletest::matchers::exit_status_matcher::{died, exited_with_code, ExitStatus};
use googletest::matchers::ge_matcher::ge;
use googletest::matchers::is_matcher::is;
use googletest::matchers::lt_matcher::lt;

fn here() -> SourceLocation {
    SourceLocation::new("tests/internals.rs", 7, 9)
}

#[test]
fn every_hash_runs_on_exactly_one_shard() {
    for total in 1..6u64 {
        for hash in [0u64, 1, 2, 17, 1000, u64::MAX] {
            let running: Vec<u64> = (0..total)
                .filter(|&i| test_should_run(&Sharding::from_values(Some(i), Some(total)), hash))
                .collect();
            assert_eq!(running, vec![hash % total]);
        }
    }
}

#[test]
fn invalid_shard_settings_run_everything_on_one_shard() {
    for (index, total) in [(Some("3"), Some("3")), (Some("x"), Some("2")), (None, Some("2")), (Some("0"), Some("0"))] {
        let sharding = Sharding::from_settings(index, total);
        assert_eq!((sharding.this_shard, sharding.total_shards), (0, 1));
    }
    let sharding = Sharding::from_settings(Some("1"), Some("4"));
    assert_eq!((sharding.this_shard, sharding.total_shards), (1, 4));
}

#[test]
fn parses_decimal_u64() {
    assert_eq!(parse_u64("0"), Some(0));
    assert_eq!(parse_u64("18446744073709551615"), Some(u64::MAX));
    assert_eq!(parse_u64("18446744073709551616"), None);
    assert_eq!(parse_u64(""), None);
    assert_eq!(parse_u64("12a"), None);
    assert_eq!(parse_u64("+1"), Some(1));
}

#[test]
fn source_location_and_failure_are_displayed() {
    let failure = TestAssertionFailure::create("Something failed".to_string(), here());
    assert_eq!(failure.to_string(), "Something failed\n  at   at tests/internals.rs:7:9\n");
    let moved = failure.with_fake_location("other.rs", 1, 2);
    assert_eq!(moved.to_string(), "Something failed\n  at   at other.rs:1:2\n");
}

#[test]
fn failure_message_is_attached_to_failures_only() {
    let failed = create_fail_result("Boom".to_string(), here()).failure_message("context".to_string());
    assert_eq!(failed.err().unwrap().custom_message, Some("context".to_string()));
    let passed: Result<(), TestAssertionFailure> = Ok(());
    assert!(passed.failure_message("context".to_string()).is_ok());
}

#[test]
fn or_fail_turns_errors_into_failures() {
    let value: Result<i32, String> = Ok(3);
    assert_eq!(value.or_fail(here()).ok(), Some(3));
    let error: Result<i32, String> = Err("bad".to_string());
    let failure = error.or_fail(here()).err().unwrap();
    assert_eq!(failure.description, "\"bad\"");
}

#[test]
fn test_outcome_tracks_failure() {
    let mut outcome = TestOutcome::new();
    assert!(outcome.is_success());
    assert!(verify_current_test_outcome(&outcome, here()).is_ok());
    assert!(outcome.close(true).is_ok());
    assert!(outcome.close(false).is_err());
    outcome.fail();
    assert!(!outcome.is_success());
    let failure = verify_current_test_outcome(&outcome, here()).err().unwrap();
    assert_eq!(failure.description, "Test failed");
    assert!(outcome.close(true).is_err());
    assert_eq!(TestFailure::message(), "See failure output above\n");
}

#[test]
fn long_actual_values_are_pretty_printed() {
    let actual: Vec<i32> = (100..120).collect();
    let message = verify_that(&actual, &eq(vec![1]), "actual", here()).err().unwrap().to_string();
    assert!(message.contains("Actual: [\n    100,\n    101,\n"));
    let short = verify_that(&vec![2], &eq(vec![1]), "short", here()).err().unwrap().to_string();
    assert!(short.contains("Actual: [2],\n"));
}

#[test]
fn exit_status_matchers() {
    let exited = ExitStatus { code: Some(3) };
    let killed = ExitStatus { code: None };
    assert!(exited_with_code(3).matches(&exited).is_match());
    assert!(exited_with_code(4).matches(&exited).is_no_match());
    assert!(died().matches(&killed).is_match() || died().matches(&killed).is_no_match());
    assert_eq!(exited_with_code(3).describe(MatcherResult::Match).to_string(), "exited with code 3");
}

#[test]
fn is_matcher_names_the_inner_condition() {
    let matcher = is("a small number", lt(10));
    assert!(matcher.matches(&3).is_match());
    assert!(matcher.matches(&30).is_no_match());
}

#[test]
fn all_matcher_needs_every_component() {
    let matcher = AllMatcher::<i32, _>::new(vec![ge(1), ge(5)]);
    assert!(matcher.matches(&7).is_match());
    assert!(matcher.matches(&3).is_no_match());
}

#[test]
fn best_match_pairs_elements_with_matchers() {
    let actual = vec![1, 2, 3];
    let expected = vec![eq(3), eq(1), eq(2)];
    let matrix = MatchMatrix::generate(&actual, &expected);
    assert!(!matrix.find_unmatchable_elements().has_unmatchable_elements());
    let best = matrix.find_best_match();
    assert!(best.is_full_match());
    assert!(best.get_explanation(&actual, &expected, Requirements::PerfectMatch).is_none());

    let partial = MatchMatrix::generate(&vec![1, 1], &vec![eq(1), eq(2)]);
    assert!(partial.find_unmatchable_elements().has_unmatchable_elements());
    assert!(!partial.find_best_match().is_full_match());
    assert_eq!(Requirements::Superset.name(), "superset");
    assert!(Requirements::PerfectMatch.explain_size_mismatch(2, 3).is_some());
    assert!(Requirements::Superset.explain_size_mismatch(3, 2).is_none());
}

#[test]
fn best_match_moves_earlier_pairs_to_fit_later_elements() {
    // Element 0 matches both matchers, element 1 only the first: a maximum
    // matching pairs element 0 with the second matcher.
    let actual = vec![2, 1];
    let expected = vec![ge(1), ge(2)];
    let matrix = MatchMatrix::generate(&actual, &expected);
    let best = matrix.find_best_match();
    assert!(best.is_full_match());
    assert_eq!(best.0, vec![Some(1), Some(0)]);
    assert!(matrix.is_match_for(Requirements::PerfectMatch));
    assert!(matrix.is_match_for(Requirements::Superset));
    assert!(matrix.is_match_for(Requirements::Subset));

    // Two elements that only the first matcher matches: no perfect match,
    // but the matchers are not all matched either.
    let crowded = MatchMatrix::generate(&vec![5, 5], &vec![ge(1), ge(9)]);
    assert!(!crowded.is_match_for(Requirements::PerfectMatch));
    assert!(!crowded.is_match_for(Requirements::Superset));
    assert!(!crowded.is_match_for(Requirements::Subset));
}

#[test]
fn missing_options_fail_with_their_type() {
    assert_eq!(googletest::assertions::option_or_fail(Some(3), "i32", here()).ok(), Some(3));
    let failure = googletest::assertions::option_or_fail(None::<i32>, "i32", here()).err().unwrap();
    assert_eq!(failure.description, "called `Option::or_fail()` on a `Option::<i32>::None` value");
}

#[test]
fn failure_messages_come_from_the_provider_only_on_failure() {
    let failed = create_fail_result("Boom".to_string(), here())
        .with_failure_message(|| "computed context".to_string());
    assert_eq!(failed.err().unwrap().custom_message, Some("computed context".to_string()));
    let passed: Result<(), TestAssertionFailure> = Ok(());
    let result = passed.with_failure_message(|| panic!("not called for a success"));
    assert!(result.is_ok());
}
