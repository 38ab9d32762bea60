use googletest::assertions::{verify_that, Subject};
use googletest::description::Description;
use googletest::internal::source_location::SourceLocation;
use googletest::internal::test_outcome::TestAssertionFailure;
use googletest::matcher::{Matcher, MatcherResult, Printable};
use googletest::matchers::anything_matcher::anything;
use googletest::matchers::bool_matcher::{is_false, is_true};
use googletest::matchers::conjunction_matcher::AndMatcherExt;
use googletest::matchers::disjunction_matcher::{DisjunctionMatcher, OrMatcherExt};
use googletest::matchers::ends_with_matcher::ends_with;
use googletest::matchers::eq_matcher::eq;
use googletest::matchers::ge_matcher::ge;
use googletest::matchers::not_matcher::not;
use googletest::matchers::lt_matcher::lt;
use googletest::matchers::starts_with_matcher::starts_with;

fn check<M: Matcher>(actual: &M::ActualT, matcher: &M, expr: &str) -> Result<(), TestAssertionFailure>
where
    M::ActualT: Printable,
{
    verify_that(actual, matcher, expr, SourceLocation::new("tests/matchers_logic.rs", 1, 1))
}

fn failure(result: Result<(), TestAssertionFailure>) -> String {
    match result {
        Ok(()) => panic!("the assertion should have failed"),
        Err(f) => f.to_string(),
    }
}

fn shown(d: Description) -> String {
    d.to_string()
}

#[test]
fn anything_matches_i32() {
    let value = 32;
    assert!(check(&value, &anything(), "value").is_ok());
}

#[test]
fn anything_matches_str() {
    let value = "32";
    assert!(check(&value, &anything(), "value").is_ok());
}

#[test]
fn anything_matches_option() {
    let value = Some(32);
    assert!(value.is_some());
    assert!(check(&value.unwrap(), &anything(), "value").is_ok());
    assert!(check(&value, &anything(), "value").is_ok());
}

#[test]
fn match_value() {
    assert!(check(&true, &is_true(), "true").is_ok());
    assert!(check(&true, &not(is_false()), "true").is_ok());
    assert!(check(&false, &is_false(), "false").is_ok());
    assert!(check(&false, &not(is_true()), "false").is_ok());
}

#[test]
fn match_ref() {
    let t = true;
    let f = false;

    assert!(check(&t, &is_true(), "&t").is_ok());
    assert!(check(&t, &not(is_false()), "&t").is_ok());
    assert!(check(&f, &is_false(), "&f").is_ok());
    assert!(check(&f, &not(is_true()), "&f").is_ok());
}

#[test]
fn describe() {
    assert_eq!(is_true().describe(MatcherResult::Match).to_string(), "is true");
    assert_eq!(is_true().describe(MatcherResult::NoMatch).to_string(), "is false");
    assert_eq!(is_false().describe(MatcherResult::Match).to_string(), "is false");
    assert_eq!(is_false().describe(MatcherResult::NoMatch).to_string(), "is true");
}

#[test]
fn bool_mismatch_is_explained() {
    let message = failure(check(&false, &is_true(), "flag"));
    assert!(message.contains("Value of: flag\nExpected: is true\nActual: false,\n  which is false\n"));
}

#[test]
fn and_true_true_matches() {
    assert!(check(&1, &anything().and(anything()), "1").is_ok());
}

// The failure reports below put the explanation on the line after
// "Actual: 1,", indented, as the assertion code and its documented examples
// format every failure; the one-line form "Actual: 1, which is anything"
// disagrees with them.
#[test]
fn and_true_false_failure_message() {
    let message = failure(check(&1, &anything().and(not(anything())), "1"));
    assert!(message.contains(
        "Value of: 1\nExpected: is anything, and never matches\nActual: 1,\n  which is anything\n"
    ));
}

#[test]
fn and_false_true_failure_message() {
    let message = failure(check(&1, &not(anything()).and(anything()), "1"));
    assert!(message.contains(
        "Value of: 1\nExpected: never matches, and is anything\nActual: 1,\n  which is anything\n"
    ));
}

#[test]
fn and_false_false_failure_message() {
    let message = failure(check(&1, &not(anything()).and(not(anything())), "1"));
    assert!(message.contains(
        "Value of: 1\nExpected: never matches, and never matches\nActual: 1,\n  which is anything and\n  which is anything\n"
    ));
}

#[test]
fn chained_and_matches_on_all_parts() {
    let matcher = ge(1).and(ge(2)).and(ge(3));
    assert!(check(&3, &matcher, "3").is_ok());
    assert!(check(&2, &matcher, "2").is_err());
}

#[test]
fn or_true_true_matches() {
    assert!(check(&1, &anything().or(anything()), "1").is_ok());
}

#[test]
fn or_true_false_matches() {
    assert!(check(&1, &anything().or(not(anything())), "1").is_ok());
}

#[test]
fn or_false_true_matches() {
    assert!(check(&1, &not(anything()).or(anything()), "1").is_ok());
}

#[test]
fn or_false_false_does_not_match() {
    let message = failure(check(&1, &not(anything()).or(not(anything())), "1"));
    assert!(message.contains(
        "\nValue of: 1\nExpected: has at least one of the following properties:\n  * never matches\n  * never matches\nActual: 1,\n  * which is anything\n  * which is anything\n"
            .trim_start_matches('\n')
    ));
}

#[test]
fn chained_or_matches() {
    assert!(check(&10, &eq(1).or(eq(5)).or(ge(9)), "10").is_ok());
}

#[test]
fn works_with_str_slices() {
    assert!(check(&"A string", &ends_with("A").or(ends_with("string")), "\"A string\"").is_ok());
}

#[test]
fn works_with_owned_strings() {
    assert!(check(
        &"A string".to_string(),
        &ends_with("A").or(ends_with("string")),
        "\"A string\".to_string()"
    )
    .is_ok());
}

#[test]
fn description_shows_more_than_one_matcher() {
    let first_matcher = starts_with::<String>("A");
    let second_matcher = ends_with("string");
    let matcher = DisjunctionMatcher::new(first_matcher, second_matcher);

    assert_eq!(
        shown(matcher.describe(MatcherResult::Match)),
        "has at least one of the following properties:\n  * starts with prefix \"A\"\n  * ends with suffix \"string\""
    );
}

#[test]
fn description_shows_one_matcher_directly() {
    let first_matcher = starts_with::<String>("A");
    let matcher = first_matcher;

    assert_eq!(shown(matcher.describe(MatcherResult::Match)), "starts with prefix \"A\"");
}

#[test]
fn mismatch_description_shows_which_matcher_failed_if_more_than_one_constituent() {
    let first_matcher = starts_with("Another");
    let second_matcher = ends_with("string");
    let matcher = DisjunctionMatcher::new(first_matcher, second_matcher);

    assert_eq!(
        shown(matcher.explain_match(&"A string")),
        "which does not start with \"Another\""
    );
}

#[test]
fn mismatch_description_is_simple_when_only_one_constituent() {
    let first_matcher = starts_with("Another");
    let matcher = first_matcher;

    assert_eq!(
        shown(matcher.explain_match(&"A string")),
        "which does not start with \"Another\""
    );
}

#[test]
fn not_inverts_the_result_and_the_description() {
    let matcher = not(eq(3));
    assert_eq!(matcher.matches(&3), MatcherResult::NoMatch);
    assert_eq!(matcher.matches(&4), MatcherResult::Match);
    assert_eq!(shown(matcher.describe(MatcherResult::Match)), "isn't equal to 3");
}

#[test]
fn test_should_work_with_second_test_annotation() {
    assert!(check(&1, &eq(1), "1").is_ok());
}

#[test]
fn negation_laws_hold_on_small_numbers() {
    for v in -2..10 {
        assert_eq!(
            not(ge(3).and(lt(7))).matches(&v),
            not(ge(3)).or(not(lt(7))).matches(&v)
        );
        assert_eq!(not(ge(3).or(lt(0))).matches(&v), not(ge(3)).and(not(lt(0))).matches(&v));
        assert_eq!(not(not(ge(3))).matches(&v), ge(3).matches(&v));
    }
    assert_eq!(
        shown(not(not(ge::<i32, i32>(3))).describe(MatcherResult::Match)),
        shown(ge::<i32, i32>(3).describe(MatcherResult::Match))
    );
    assert_eq!(
        shown(not(ge::<i32, i32>(3)).describe(MatcherResult::Match)),
        shown(ge::<i32, i32>(3).describe(MatcherResult::NoMatch))
    );
}

#[test]
fn matcher_results_convert_to_and_from_bool() {
    for b in [true, false] {
        let r = MatcherResult::from(b);
        assert_eq!(r.is_match(), b);
        assert_eq!(bool::from(r), b);
        assert_eq!(r.is_match(), !r.is_no_match());
    }
    assert_eq!(MatcherResult::from(true), MatcherResult::Match);
    assert_eq!(MatcherResult::from(false), MatcherResult::NoMatch);
}

#[test]
fn subject_check_reports_a_failure_only_on_a_mismatch() {
    assert!(5.check(eq(5), "5", SourceLocation::new("tests/matchers_logic.rs", 2, 3)).is_ok());
    let message = failure(7.check(eq(5), "seven", SourceLocation::new("tests/matchers_logic.rs", 2, 3)));
    assert!(message.contains("Value of: seven\nExpected: is equal to 5\nActual: 7,\n"));
}
