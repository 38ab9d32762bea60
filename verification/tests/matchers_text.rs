use std::rc::Rc;

use googletest::assertions::verify_that;
use googletest::description::Description;
use googletest::internal::source_location::SourceLocation;
use googletest::internal::test_outcome::TestAssertionFailure;
use googletest::matcher::{EqualTo, Matcher, MatcherResult, Printable};
use googletest::matchers::char_count_matcher::char_count;
use googletest::matchers::contains_regex_matcher::{contains_regex, try_contains_regex};
use googletest::matchers::contains_substring_matcher::contains_substring;
use googletest::matchers::derefs_to_matcher::derefs_to;
use googletest::matchers::display_matcher::{displays_as, Displayable};
use googletest::matchers::elements_are_matcher::ElementsAre;
use googletest::matchers::ends_with_matcher::ends_with;
use googletest::matchers::eq_deref_of_matcher::eq_deref_of;
use googletest::matchers::eq_ignoring_ascii_case_matcher::eq_ignoring_ascii_case;
use googletest::matchers::eq_matcher::eq;
use googletest::matchers::is_encoded_string_matcher::is_utf8_string;
use googletest::matchers::match_positions_matcher::{
    find_positions, regex_positions, substring_positions, try_regex_positions,
};
use googletest::matchers::not_matcher::not;
use googletest::matchers::starts_with_matcher::starts_with;

fn check<M: Matcher>(actual: &M::ActualT, matcher: &M, expr: &str) -> Result<(), TestAssertionFailure>
where
    M::ActualT: Printable,
{
    verify_that(actual, matcher, expr, SourceLocation::new("tests/matchers_text.rs", 1, 1))
}

fn failure(result: Result<(), TestAssertionFailure>) -> String {
    match result {
        Ok(()) => panic!("the assertion should have failed"),
        Err(f) => f.to_string(),
    }
}

fn shown(d: Description) -> String {
    d.to_string()
}

/// A matcher that never matches and describes itself by fixed texts.
struct TestMatcher;

impl Matcher for TestMatcher {
    type ActualT = usize;

    fn matches(&self, _: &usize) -> MatcherResult {
        MatcherResult::NoMatch
    }

    fn describe(&self, _: MatcherResult) -> Description {
        Description::from_text("called described")
    }

    fn explain_match(&self, _: &usize) -> Description {
        Description::from_text("called explain_match")
    }
}

#[derive(Debug)]
struct Struct {
    a: i32,
    b: i64,
}

impl Printable for Struct {
    fn print_to(&self, out: &mut Vec<char>) {
        out.extend(format!("{:?}", self).chars());
    }

    fn pretty_to(&self, out: &mut Vec<char>) {
        out.extend(format!("{:#?}", self).chars());
    }
}

impl Displayable for Struct {
    fn display(&self) -> String {
        format!("{:?}", self)
    }
}

#[derive(Debug, PartialEq)]
struct NonCloneNonCopyStruct(i32);

impl Printable for NonCloneNonCopyStruct {
    fn print_to(&self, out: &mut Vec<char>) {
        out.extend(format!("{:?}", self).chars());
    }

    fn pretty_to(&self, out: &mut Vec<char>) {
        out.extend(format!("{:#?}", self).chars());
    }
}

impl EqualTo<NonCloneNonCopyStruct> for NonCloneNonCopyStruct {
    fn is_equal_to(&self, other: &NonCloneNonCopyStruct) -> bool {
        self == other
    }
}

#[derive(Debug, PartialEq)]
struct Strukt {
    int: i32,
    string: String,
}

impl Printable for Strukt {
    fn print_to(&self, out: &mut Vec<char>) {
        out.extend(format!("{:?}", self).chars());
    }

    fn pretty_to(&self, out: &mut Vec<char>) {
        out.extend(format!("{:#?}", self).chars());
    }
}

impl EqualTo<Strukt> for Strukt {
    fn is_equal_to(&self, other: &Strukt) -> bool {
        self == other
    }
}

#[test]
fn char_count_matches_string_slice() {
    let value = "abcd";
    assert!(check(&value, &char_count(eq(4usize)), "value").is_ok());
}

#[test]
fn char_count_matches_owned_string() {
    let value = String::from("abcd");
    assert!(check(&value, &char_count(eq(4usize)), "value").is_ok());
}

#[test]
fn char_count_counts_non_ascii_characters_correctly() {
    let value = "äöüß";
    assert!(check(&value, &char_count(eq(4usize)), "value").is_ok());
}

#[test]
fn char_count_explains_match() {
    assert_eq!(
        shown(char_count(TestMatcher).explain_match(&"A string")),
        "which has character count 8, called explain_match"
    );
}

#[test]
fn char_count_has_correct_failure_message() {
    let result = check(&"äöüß", &char_count(eq(3usize)), "\"äöüß\"");
    assert!(failure(result).contains(
        "Value of: \"äöüß\"\nExpected: has character count, which is equal to 3\nActual: \"äöüß\",\n  which has character count 4, which isn't equal to 3"
    ));
}

#[test]
fn display_matches_i32() {
    let value = 32;
    assert!(check(&value, &displays_as(eq("32")), "value").is_ok());
}

#[test]
fn display_matches_str() {
    let value = "32";
    assert!(check(&value, &displays_as(eq("32")), "value").is_ok());
}

#[test]
fn display_matches_struct() {
    assert!(check(
        &Struct { a: 123, b: 321 },
        &displays_as(eq("Struct { a: 123, b: 321 }")),
        "Struct { a: 123, b: 321 }"
    )
    .is_ok());
}

#[test]
fn display_displays_error_message_with_explanation_from_inner_matcher() {
    let result = check(&"123\n234", &displays_as(eq("123\n345")), "\"123\\n234\"");
    assert!(failure(result).contains(
        "Actual: \"123\\n234\",\n  which displays as \"123\\n234\" which isn't equal to \"123\\n345\"\n  Difference(-actual / +expected):\n   123\n  -234\n  +345\n"
    ));
}

#[test]
fn deref_to_matches_box_of_int_with_int() {
    let actual = Box::new(123);
    assert!(check(&actual, &derefs_to(eq(&123)), "actual").is_ok());
}

#[test]
fn deref_to_matches_rc_of_int_with_int() {
    assert!(derefs_to(eq(&123)).matches(&Rc::new(123)).is_match());
}

#[test]
fn deref_to_combines_with_points_to_for_copy() {
    assert!(derefs_to(eq(123)).matches(&Rc::new(123)).is_match());
}

#[test]
fn match_explanation_references_actual_value() {
    let actual = Box::new(1);
    let result = check(&actual, &derefs_to(eq(&0)), "actual");

    assert!(failure(result).contains("Actual: 1,\n  which isn't equal to 0\n"));
}

#[test]
fn matches_value_with_ref_to_equal_value() {
    assert!(check(
        &NonCloneNonCopyStruct(123),
        &eq_deref_of(&NonCloneNonCopyStruct(123)),
        "NonCloneNonCopyStruct(123)"
    )
    .is_ok());
}

#[test]
fn matches_value_with_box_of_equal_value() {
    assert!(check(
        &NonCloneNonCopyStruct(123),
        &eq_deref_of(Box::new(NonCloneNonCopyStruct(123))),
        "NonCloneNonCopyStruct(123)"
    )
    .is_ok());
}

#[test]
fn does_not_match_value_with_non_equal_value() {
    assert!(check(
        &NonCloneNonCopyStruct(123),
        &not(eq_deref_of(&NonCloneNonCopyStruct(234))),
        "NonCloneNonCopyStruct(123)"
    )
    .is_ok());
}

#[test]
fn shows_line_diff_of_expected_against_actual() {
    let result = check(
        &Strukt { int: 123, string: "something".into() },
        &eq_deref_of(Box::new(Strukt { int: 321, string: "someone".into() })),
        "Strukt { int: 123, string: \"something\".into() }",
    );
    let message = failure(result);
    assert!(message.contains(
        "Actual: Strukt { int: 123, string: \"something\" },\n  which isn't equal to Strukt { int: 321, string: \"someone\" }\n"
    ));
    assert!(message.contains("  Difference(-actual / +expected):\n   Strukt {\n"));
    assert!(message.contains("  -    int: 321,\n  +    int: 123,\n"));
    assert!(message.contains("  -    string: \"someone\",\n  +    string: \"something\",\n   }\n"));
}

#[test]
fn matches_string_as_byte_slice() {
    assert!(is_utf8_string(eq("A string".to_string())).matches(&"A string".as_bytes()).is_match());
}

#[test]
fn matches_string_as_byte_vec() {
    assert!(is_utf8_string(eq("A string")).matches(&"A string".as_bytes().to_vec()).is_match());
}

#[test]
fn matches_string_with_utf_8_encoded_sequences() {
    assert!(is_utf8_string(eq("äöüÄÖÜ")).matches(&"äöüÄÖÜ".as_bytes().to_vec()).is_match());
}

#[test]
fn does_not_match_non_equal_string() {
    assert!(not(is_utf8_string(eq("A string")))
        .matches(&"äöüÄÖÜ".as_bytes().to_vec())
        .is_match());
}

#[test]
fn does_not_match_non_utf_8_encoded_byte_sequence() {
    assert!(not(is_utf8_string(eq("A string"))).matches(&[192u8, 64, 255, 32]).is_match());
}

#[test]
fn has_correct_description_in_matched_case() {
    let matcher = is_utf8_string::<&[u8], _>(eq("A string"));

    assert_eq!(
        shown(matcher.describe(MatcherResult::Match)),
        "is a UTF-8 encoded string which is equal to \"A string\""
    );
}

#[test]
fn has_correct_description_in_not_matched_case() {
    let matcher = is_utf8_string::<&[u8], _>(eq("A string"));

    assert_eq!(
        shown(matcher.describe(MatcherResult::NoMatch)),
        "is not a UTF-8 encoded string which is equal to \"A string\""
    );
}

#[test]
fn has_correct_explanation_in_matched_case() {
    let explanation = is_utf8_string(eq("A string")).explain_match(&"A string".as_bytes());

    assert_eq!(
        shown(explanation),
        "which is a UTF-8 encoded string which is equal to \"A string\""
    );
}

#[test]
fn has_correct_explanation_when_byte_array_is_not_utf8_encoded() {
    let explanation = is_utf8_string(eq("A string")).explain_match(&[192u8, 128, 0, 64]);

    let text = shown(explanation);
    assert!(starts_with::<String>("which is not a UTF-8 encoded string: ")
        .matches(&text)
        .is_match());
    assert_eq!(
        text,
        "which is not a UTF-8 encoded string: invalid utf-8 sequence of 1 bytes from index 0"
    );
}

#[test]
fn has_correct_explanation_when_inner_matcher_does_not_match() {
    let explanation =
        is_utf8_string(eq("A string")).explain_match(&"Another string".as_bytes());

    assert_eq!(
        shown(explanation),
        "which is a UTF-8 encoded string which isn't equal to \"A string\""
    );
}

#[test]
fn regex_positions_matches_string_slice() {
    let text = "token at 0, token at 12, token at 25";
    let matcher =
        regex_positions("token", ElementsAre::new(vec![eq(0usize), eq(12usize), eq(25usize)]));
    assert!(check(&text, &matcher, "text").is_ok());
}

#[test]
fn regex_positions_matches_owned_string() {
    let text = String::from("foo bar foo");
    let matcher = regex_positions("foo", ElementsAre::new(vec![eq(0usize), eq(8usize)]));
    assert!(check(&text, &matcher, "text").is_ok());
}

#[test]
fn substring_positions_matches_literal_substring() {
    let text = "a.b a.b a.b";
    let matcher =
        substring_positions("a.b", ElementsAre::new(vec![eq(0usize), eq(4usize), eq(8usize)]));
    assert!(check(&text, &matcher, "text").is_ok());
}

#[test]
fn positions_matcher_failure_explanation() {
    let text = "abc abc";
    let matcher = substring_positions("abc", ElementsAre::new(vec![eq(0usize)]));
    assert!(shown(Matcher::explain_match(&matcher, &text))
        .contains("whose match positions are [0, 4]"));
}

#[test]
fn invalid_regex_gives_no_positions_matcher() {
    assert!(try_regex_positions::<&str, _>("(", ElementsAre::<Vec<usize>, _>::new(vec![eq::<usize, usize>(0)])).is_none());
    assert!(try_regex_positions::<&str, _>("a+", ElementsAre::<Vec<usize>, _>::new(vec![eq::<usize, usize>(0)])).is_some());
}

#[test]
fn positions_are_byte_offsets_of_non_overlapping_occurrences() {
    assert_eq!(find_positions("aaaa", "aa"), vec![0, 2]);
    assert_eq!(find_positions("äbä", "ä"), vec![0, 3]);
    assert_eq!(find_positions("abc", "x"), Vec::<usize>::new());
}

#[test]
fn contains_regex_matches_string_reference_with_pattern() {
    let matcher = contains_regex("S.*val");

    let result = matcher.matches(&"Some value");

    assert_eq!(result, MatcherResult::Match);
}

#[test]
fn contains_regex_does_not_match_string_without_pattern() {
    let matcher = contains_regex("Another");

    let result = matcher.matches(&"Some value");

    assert_eq!(result, MatcherResult::NoMatch);
}

#[test]
fn contains_regex_matches_owned_string_with_pattern() {
    let matcher = contains_regex("value");

    let result = matcher.matches(&"Some value".to_string());

    assert_eq!(result, MatcherResult::Match);
}

#[test]
fn contains_regex_matches_string_reference_with_owned_string() {
    let matcher = contains_regex("value");

    let result = matcher.matches(&"Some value");

    assert_eq!(result, MatcherResult::Match);
}

#[test]
fn verify_that_works_with_owned_string() {
    assert!(check(&"Some value".to_string(), &contains_regex("value"), "value").is_ok());
}

#[test]
fn contains_regex_displays_quoted_debug_of_pattern() {
    let matcher = contains_regex::<&str>("\n");

    assert_eq!(
        shown(Matcher::describe(&matcher, MatcherResult::Match)),
        "contains the regular expression \"\\n\""
    );
}

#[test]
fn contains_regex_matches_multi_line() {
    let matcher = contains_regex("(?m)^Second line$");
    let result = matcher.matches(&"First line\nSecond line\nThird line");
    assert_eq!(result, MatcherResult::Match);
}

#[test]
fn contains_regex_matches_across_newlines() {
    let matcher = contains_regex("(?s)Starting.*Retrying");
    let result = matcher.matches(&"INFO: Starting\nERROR: Failed to connect\nINFO: Retrying");
    assert_eq!(result, MatcherResult::Match);
}

#[test]
fn contains_regex_matches_multiple_occurrences() {
    let matcher = contains_regex("(?s)(?:.*token){3}");
    let result = matcher.matches(&"token at index 0, token at index 18, token at index 37");
    assert_eq!(result, MatcherResult::Match);
}

#[test]
fn invalid_regex_gives_no_matcher() {
    assert!(try_contains_regex::<&str>("(").is_none());
    assert!(try_contains_regex::<&str>("a|b").is_some());
}

#[test]
fn string_matchers_describe_and_match() {
    assert!(contains_substring("ell").matches(&"Hello").is_match());
    assert!(starts_with("He").matches(&"Hello").is_match());
    assert!(ends_with("lo").matches(&"Hello").is_match());
    assert!(ends_with("He").matches(&"Hello").is_no_match());
    assert!(eq_ignoring_ascii_case("hELLo").matches(&"Hello").is_match());
    assert!(eq_ignoring_ascii_case("Hallo").matches(&"Hello").is_no_match());
    assert_eq!(
        shown(contains_substring::<&str>("ell").describe(MatcherResult::Match)),
        "contains substring \"ell\""
    );
}
