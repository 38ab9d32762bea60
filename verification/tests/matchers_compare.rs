use googletest::assertions::verify_that;
use googletest::internal::source_location::SourceLocation;
use googletest::internal::test_outcome::TestAssertionFailure;
use googletest::matcher::{Below, EqualTo, Matcher, MatcherResult, Printable};
use googletest::matchers::contains_substring_matcher::contains_substring;
use googletest::matchers::display_matcher::displays_as;
use googletest::matchers::each_matcher::each;
use googletest::matchers::eq_matcher::eq;
use googletest::matchers::err_matcher::err;
use googletest::matchers::ge_matcher::ge;
use googletest::matchers::gt_matcher::gt;
use googletest::matchers::le_matcher::le;
use googletest::matchers::lt_matcher::lt;
use googletest::matchers::not_matcher::not;

fn check<M: Matcher>(actual: &M::ActualT, matcher: &M, expr: &str) -> Result<(), TestAssertionFailure>
where
    M::ActualT: Printable,
{
    verify_that(actual, matcher, expr, SourceLocation::new("tests/matchers_compare.rs", 1, 1))
}

fn assert_err_contains(result: &Result<(), TestAssertionFailure>, text: &str) {
    let matcher = err::<(), _>(displays_as::<TestAssertionFailure, _>(contains_substring::<String>(text)));
    if matcher.matches(result) != MatcherResult::Match {
        match result {
            Ok(()) => panic!("expected a failure containing {text:?}, got success"),
            Err(f) => panic!("expected a failure containing {text:?}, got:\n{}", f.to_string()),
        }
    }
}

fn assert_err_lacks(result: &Result<(), TestAssertionFailure>, text: &str) {
    let matcher =
        err::<(), _>(displays_as::<TestAssertionFailure, _>(not(contains_substring::<String>(text))));
    assert_eq!(matcher.matches(result), MatcherResult::Match);
}

/// A "number" below every `u32`, comparable with `u32` in both directions.
#[derive(Debug)]
struct VeryLowNumber {}

impl Printable for VeryLowNumber {
    fn print_to(&self, out: &mut Vec<char>) {
        out.extend("VeryLowNumber".chars());
    }

    fn pretty_to(&self, out: &mut Vec<char>) {
        out.extend("VeryLowNumber".chars());
    }
}

impl EqualTo<u32> for VeryLowNumber {
    fn is_equal_to(&self, _other: &u32) -> bool {
        false
    }
}

impl Below<u32> for VeryLowNumber {
    fn is_below(&self, _other: &u32) -> bool {
        true
    }
}

#[test]
fn eq_matches_string_reference_with_string_reference() {
    assert!(check(&"A string", &eq("A string"), "\"A string\"").is_ok());
}

#[test]
fn eq_matches_owned_string_with_string_reference() {
    let value = "A string".to_string();
    assert!(check(&value, &eq("A string"), "value").is_ok());
}

#[test]
fn eq_matches_owned_string_reference_with_string_reference() {
    let value = "A string".to_string();
    assert!(check(&&value, &eq("A string"), "&value").is_ok());
}

#[test]
fn eq_matches_i32_with_i32() {
    assert!(check(&123, &eq(123), "123").is_ok());
}

#[test]
fn eq_multi_line_string_debug_diff() {
    let result = check(&"One\nTwo\nThree", &eq("One\nSix\nThree"), r#""One\nTwo\nThree""#);
    assert_err_contains(
        &result,
        r#"Value of: "One\nTwo\nThree"
Expected: is equal to "One\nSix\nThree"
Actual: "One\nTwo\nThree",
  which isn't equal to "One\nSix\nThree"
"#,
    );
}

#[test]
fn match_explanation_does_not_show_diff_if_actual_value_is_single_line() {
    let result = check(
        &"First line",
        &eq("First line\nSecond line\nThird line\n"),
        "\"First line\"",
    );
    assert_err_lacks(&result, "Difference(-\x1B[1;31mactual\x1B[0m / +\x1B[1;32mexpected\x1B[0m):");
    assert_err_lacks(&result, "Difference(");
}

#[test]
fn match_explanation_does_not_show_diff_if_expected_value_is_single_line() {
    let result =
        check(&"First line\nSecond line\nThird line\n", &eq("First line"), "text");
    assert_err_lacks(&result, "Difference(-\x1B[1;31mactual\x1B[0m / +\x1B[1;32mexpected\x1B[0m):");
    assert_err_lacks(&result, "Difference(");
}

#[test]
fn eq_vec_debug_diff_without_color() {
    let result = check(&vec![1, 2, 3], &eq(vec![1, 3, 4]), "vec![1, 2, 3]");
    assert_err_contains(
        &result,
        "Value of: vec![1, 2, 3]
Expected: is equal to [1, 3, 4]
Actual: [1, 2, 3],
  which isn't equal to [1, 3, 4]
  Difference(-actual / +expected):
   [
       1,
  -    2,
       3,
  +    4,
   ]
",
    );
}

#[test]
fn eq_debug_diff_common_lines_omitted_without_color() {
    let actual: Vec<i32> = (1..50).collect();
    let expected: Vec<i32> = (3..52).collect();
    let result = check(&actual, &eq(expected), "actual");
    assert_err_contains(
        &result,
        "  Difference(-actual / +expected):
   [
  -    1,
  -    2,
       3,
       4,
   <---- 43 common lines omitted ---->
       48,
       49,
  +    50,
  +    51,
   ]",
    );
}

#[test]
fn match_explanation_contains_diff_of_strings_if_more_than_one_line() {
    let result = check(
        &"First line\nSecond line\nThird line\n",
        &eq("First line\nSecond lines\nThird line\n"),
        "text",
    );
    assert_err_contains(&result, "   First line\n  -Second line\n  +Second lines\n   Third line\n");
}

#[test]
fn ge_matches_i32_with_i32() {
    let actual: i32 = 0;
    let expected: i32 = 0;
    assert!(check(&actual, &ge(expected), "actual").is_ok());
}

#[test]
fn ge_does_not_match_smaller_i32() {
    let matcher = ge(10);
    let result = matcher.matches(&9);
    assert_eq!(result, MatcherResult::NoMatch);
}

#[test]
fn ge_matches_bigger_str() {
    assert!(check(&"B", &ge("A"), "\"B\"").is_ok());
}

#[test]
fn ge_does_not_match_lesser_str() {
    let matcher = ge("z");
    let result = matcher.matches(&"a");
    assert_eq!(result, MatcherResult::NoMatch);
}

#[test]
fn ge_mismatch_contains_actual_and_expected() {
    let result = check(&591, &ge(927), "591");
    assert_err_contains(
        &result,
        "Value of: 591\nExpected: is greater than or equal to 927\nActual: 591,\n  which is less than 927\n",
    );
}

#[test]
fn ge_matches_with_custom_partial_ord() {
    let actual: u32 = 42;
    let expected = VeryLowNumber {};

    assert!(check(&actual, &ge(expected), "actual").is_ok());
}

#[test]
fn gt_matches_i32_with_i32() {
    let actual: i32 = 321;
    let expected: i32 = 123;
    assert!(check(&actual, &gt(expected), "actual").is_ok());
}

#[test]
fn gt_does_not_match_equal_i32() {
    let matcher = gt(10);
    let result = matcher.matches(&10);
    assert_eq!(result, MatcherResult::NoMatch);
}

#[test]
fn gt_does_not_match_lower_i32() {
    let matcher = gt(-50);
    let result = matcher.matches(&-51);
    assert_eq!(result, MatcherResult::NoMatch);
}

#[test]
fn gt_matches_greater_str() {
    assert!(check(&"B", &gt("A"), "\"B\"").is_ok());
}

#[test]
fn gt_does_not_match_lesser_str() {
    let matcher = gt("B");
    let result = matcher.matches(&"A");
    assert_eq!(result, MatcherResult::NoMatch);
}

#[test]
fn gt_mismatch_contains_actual_and_expected() {
    let result = check(&481, &gt(632), "481");
    assert_err_contains(&result, "Value of: 481\nExpected: is greater than 632\nActual: 481,\n");
}

#[test]
fn gt_mismatch_combined_with_each() {
    let result = check(&vec![19, 23, 11], &each(gt(15)), "vec![19, 23, 11]");
    assert_err_contains(
        &result,
        "Value of: vec![19, 23, 11]\nExpected: only contains elements that is greater than 15\nActual: [19, 23, 11],\n  whose element #2 is 11, which is less than or equal to 15\n",
    );
}

#[test]
fn gt_describe_matches() {
    assert_eq!(
        gt::<i32, i32>(232).describe(MatcherResult::Match).to_string(),
        "is greater than 232"
    );
}

#[test]
fn gt_describe_does_not_match() {
    assert_eq!(
        gt::<i32, i32>(232).describe(MatcherResult::NoMatch).to_string(),
        "is less than or equal to 232"
    );
}

#[test]
fn gt_matches_with_custom_partial_ord() {
    let actual: u32 = 42;
    let expected = VeryLowNumber {};

    assert!(check(&actual, &gt(expected), "actual").is_ok());
}

#[test]
fn le_matches_i32_with_i32() {
    let actual: i32 = 0;
    let expected: i32 = 0;
    assert!(check(&actual, &le(expected), "actual").is_ok());
}

#[test]
fn le_does_not_match_bigger_i32() {
    let matcher = le(0);
    let result = matcher.matches(&1);
    assert_eq!(result, MatcherResult::NoMatch);
}

#[test]
fn le_matches_smaller_str() {
    assert!(check(&"A", &le("B"), "\"A\"").is_ok());
}

#[test]
fn le_does_not_match_bigger_str() {
    let matcher = le("a");
    let result = matcher.matches(&"z");
    assert_eq!(result, MatcherResult::NoMatch);
}

#[test]
fn le_mismatch_contains_actual_and_expected() {
    let result = check(&489, &le(294), "489");
    let formatted_message = result.unwrap_err().to_string();

    assert!(formatted_message.contains(
        "Value of: 489\nExpected: is less than or equal to 294\nActual: 489,\n  which is greater than 294\n"
    ));
}

#[test]
fn le_matches_with_custom_partial_ord() {
    let actual = VeryLowNumber {};
    let expected: u32 = 42;

    assert!(check(&actual, &le(expected), "actual").is_ok());
}

#[test]
fn lt_matches_i32_with_i32() {
    let actual: i32 = 10000;
    let expected: i32 = 20000;
    assert!(check(&actual, &lt(expected), "actual").is_ok());
}

#[test]
fn lt_does_not_match_equal_i32() {
    let matcher = lt(10);
    let result = matcher.matches(&10);
    assert_eq!(result, MatcherResult::NoMatch);
}

#[test]
fn lt_does_not_match_lower_i32() {
    let matcher = lt(-50);
    let result = matcher.matches(&50);
    assert_eq!(result, MatcherResult::NoMatch);
}

#[test]
fn lt_matches_lesser_str() {
    assert!(check(&"A", &lt("B"), "\"A\"").is_ok());
}

#[test]
fn lt_does_not_match_bigger_str() {
    let matcher = lt("ab");
    let result = matcher.matches(&"az");
    assert_eq!(result, MatcherResult::NoMatch);
}

#[test]
fn lt_mismatch_contains_actual_and_expected() {
    let result = check(&481, &lt(45), "481");
    let formatted_message = result.unwrap_err().to_string();

    assert!(formatted_message.contains(
        "Value of: 481\nExpected: is less than 45\nActual: 481,\n  which is greater than or equal to 45\n"
    ));
}

#[test]
fn lt_matches_with_custom_partial_ord() {
    let actual = VeryLowNumber {};
    let expected: u32 = 42;

    assert!(check(&actual, &lt(expected), "actual").is_ok());
}

#[test]
fn string_order_follows_characters() {
    assert_eq!(lt(String::from("b")).matches(&String::from("abc")), MatcherResult::Match);
    assert_eq!(lt(String::from("abc")).matches(&String::from("ab")), MatcherResult::Match);
    assert_eq!(lt(String::from("ab")).matches(&String::from("ab")), MatcherResult::NoMatch);
}

// The difference summaries below are colored, as when the output is a
// terminal or FORCE_COLOR is set. Like the whole explanation, they are
// indented below the "Actual:" line.

#[test]
fn eq_vec_debug_diff_colored() {
    let result = check(&vec![1, 2, 3], &eq(vec![1, 3, 4]).colored(true), "vec![1, 2, 3]");
    assert_err_contains(
        &result,
        "Value of: vec![1, 2, 3]
Expected: is equal to [1, 3, 4]
Actual: [1, 2, 3],
  which isn't equal to [1, 3, 4]
  Difference(-\x1B[1;31mactual\x1B[0m / +\x1B[1;32mexpected\x1B[0m):
   [
       1,
  -\x1B[1;31m    2,\x1B[0m
       3,
  +\x1B[1;32m    4,\x1B[0m
   ]
",
    );
}

#[test]
fn eq_vec_debug_diff_length_mismatch_colored() {
    let result = check(&vec![1, 2, 3, 4, 5], &eq(vec![1, 3, 5]).colored(true), "vec![1, 2, 3, 4, 5]");
    assert_err_contains(
        &result,
        "Value of: vec![1, 2, 3, 4, 5]
Expected: is equal to [1, 3, 5]
Actual: [1, 2, 3, 4, 5],
  which isn't equal to [1, 3, 5]
  Difference(-\x1B[1;31mactual\x1B[0m / +\x1B[1;32mexpected\x1B[0m):
   [
       1,
  -\x1B[1;31m    2,\x1B[0m
       3,
  -\x1B[1;31m    4,\x1B[0m
       5,
   ]
",
    );
}

#[test]
fn eq_debug_diff_common_lines_omitted_colored() {
    let actual: Vec<i32> = (1..50).collect();
    let expected: Vec<i32> = (3..52).collect();
    let result = check(&actual, &eq(expected).colored(true), "actual");
    assert_err_contains(
        &result,
        "  Difference(-\x1B[1;31mactual\x1B[0m / +\x1B[1;32mexpected\x1B[0m):
   [
  -\x1B[1;31m    1,\x1B[0m
  -\x1B[1;31m    2,\x1B[0m
       3,
       4,
   \x1B[3m<---- 43 common lines omitted ---->\x1B[0m
       48,
       49,
  +\x1B[1;32m    50,\x1B[0m
  +\x1B[1;32m    51,\x1B[0m
   ]",
    );
}

#[test]
fn eq_debug_diff_5_common_lines_not_omitted_colored() {
    let actual: Vec<i32> = (1..8).collect();
    let expected: Vec<i32> = (3..10).collect();
    let result = check(&actual, &eq(expected).colored(true), "actual");
    assert_err_contains(
        &result,
        "  Difference(-\x1B[1;31mactual\x1B[0m / +\x1B[1;32mexpected\x1B[0m):
   [
  -\x1B[1;31m    1,\x1B[0m
  -\x1B[1;31m    2,\x1B[0m
       3,
       4,
       5,
       6,
       7,
  +\x1B[1;32m    8,\x1B[0m
  +\x1B[1;32m    9,\x1B[0m
   ]",
    );
}

#[test]
fn eq_debug_diff_start_common_lines_omitted_colored() {
    let actual: Vec<i32> = (1..50).collect();
    let expected: Vec<i32> = (1..52).collect();
    let result = check(&actual, &eq(expected).colored(true), "actual");
    assert_err_contains(
        &result,
        "  Difference(-\x1B[1;31mactual\x1B[0m / +\x1B[1;32mexpected\x1B[0m):
   [
       1,
   \x1B[3m<---- 46 common lines omitted ---->\x1B[0m
       48,
       49,
  +\x1B[1;32m    50,\x1B[0m
  +\x1B[1;32m    51,\x1B[0m
   ]",
    );
}

#[test]
fn eq_debug_diff_end_common_lines_omitted_colored() {
    let actual: Vec<i32> = (1..52).collect();
    let expected: Vec<i32> = (3..52).collect();
    let result = check(&actual, &eq(expected).colored(true), "actual");
    assert_err_contains(
        &result,
        "  Difference(-\x1B[1;31mactual\x1B[0m / +\x1B[1;32mexpected\x1B[0m):
   [
  -\x1B[1;31m    1,\x1B[0m
  -\x1B[1;31m    2,\x1B[0m
       3,
       4,
   \x1B[3m<---- 46 common lines omitted ---->\x1B[0m
       51,
   ]",
    );
}
