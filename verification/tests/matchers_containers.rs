use std::collections::{BTreeMap, BTreeSet, HashMap, HashSet, VecDeque};

use googletest::assertions::verify_that;
use googletest::description::Description;
use googletest::internal::source_location::SourceLocation;
use googletest::internal::test_outcome::TestAssertionFailure;
use googletest::matcher::{Matcher, MatcherResult, Printable};
use googletest::matchers::container_eq_matcher::container_eq;
use googletest::matchers::contains_matcher::{contains, ContainsMatcher};
use googletest::matchers::each_matcher::each;
use googletest::matchers::elements_are_matcher::ElementsAre;
use googletest::matchers::empty_matcher::is_empty;
use googletest::matchers::eq_matcher::eq;
use googletest::matchers::err_matcher::err;
use googletest::matchers::gt_matcher::gt;
use googletest::matchers::has_entry_matcher::has_entry;
use googletest::matchers::not_matcher::not;

fn check<M: Matcher>(actual: &M::ActualT, matcher: &M, expr: &str) -> Result<(), TestAssertionFailure>
where
    M::ActualT: Printable,
{
    verify_that(actual, matcher, expr, SourceLocation::new("tests/matchers_containers.rs", 1, 1))
}

fn failure(result: Result<(), TestAssertionFailure>) -> String {
    match result {
        Ok(()) => panic!("the assertion should have failed"),
        Err(f) => f.to_string(),
    }
}

fn shown(d: Description) -> String {
    d.to_string()
}

#[test]
fn contains_matches_singleton_slice_with_value() {
    let matcher = contains(eq(1));

    let result = matcher.matches(&vec![1]);

    assert_eq!(result, MatcherResult::Match);
}

#[test]
fn contains_matches_singleton_vec_with_value() {
    let matcher = contains(eq(1));

    let result = matcher.matches(&vec![1]);

    assert_eq!(result, MatcherResult::Match);
}

#[test]
fn contains_matches_two_element_slice_with_value() {
    let matcher = contains(eq(1));

    let result = matcher.matches(&[0, 1]);

    assert_eq!(result, MatcherResult::Match);
}

#[test]
fn contains_does_not_match_singleton_slice_with_wrong_value() {
    let matcher = contains(eq(1));

    let result = matcher.matches(&[0]);

    assert_eq!(result, MatcherResult::NoMatch);
}

#[test]
fn contains_does_not_match_empty_slice() {
    let matcher = contains(eq::<i32, _>(1));

    let result = matcher.matches(&[]);

    assert_eq!(result, MatcherResult::NoMatch);
}

#[test]
fn contains_matches_slice_with_repeated_value() {
    let matcher = contains(eq(1)).times(eq(2));

    let result = matcher.matches(&[1, 1]);

    assert_eq!(result, MatcherResult::Match);
}

#[test]
fn contains_does_not_match_slice_with_too_few_of_value() {
    let matcher = contains(eq(1)).times(eq(2));

    let result = matcher.matches(&[0, 1]);

    assert_eq!(result, MatcherResult::NoMatch);
}

#[test]
fn contains_does_not_match_slice_with_too_many_of_value() {
    let matcher = contains(eq(1)).times(eq(1));

    let result = matcher.matches(&[1, 1]);

    assert_eq!(result, MatcherResult::NoMatch);
}

#[test]
fn contains_formats_without_multiplicity_by_default() {
    let matcher: ContainsMatcher<Vec<i32>, _, _> = contains(eq(1));

    assert_eq!(
        shown(Matcher::describe(&matcher, MatcherResult::Match)),
        "contains at least one element which is equal to 1"
    );
}

#[test]
fn contains_formats_with_multiplicity_when_specified() {
    let matcher: ContainsMatcher<Vec<i32>, _, _> = contains(eq(1)).times(eq(2));

    assert_eq!(
        shown(Matcher::describe(&matcher, MatcherResult::Match)),
        "contains n elements which is equal to 1\n  where n is equal to 2"
    );
}

#[test]
fn contains_mismatch_shows_number_of_times_element_was_found() {
    assert_eq!(
        shown(contains(eq(3)).times(eq(1)).explain_match(&vec![1, 2, 3, 3])),
        "which contains 2 matching elements"
    );
}

#[test]
fn contains_mismatch_shows_when_matches() {
    assert_eq!(
        shown(contains(eq(3)).explain_match(&vec![1, 2, 3, 3])),
        "which contains a matching element"
    );
}

#[test]
fn contains_mismatch_shows_when_no_matches() {
    assert_eq!(
        shown(contains(eq(3)).explain_match(&vec![1, 2])),
        "which does not contain a matching element"
    );
}

#[test]
fn container_eq_returns_match_when_containers_match() {
    assert!(check(&vec![1, 2, 3], &container_eq(vec![1, 2, 3]), "vec![1, 2, 3]").is_ok());
}

#[test]
fn container_eq_matches_array_with_slice() {
    let value: &[i32] = &[1, 2, 3];
    assert!(container_eq([1, 2, 3]).matches(&value).is_match());
}

#[test]
fn container_eq_full_error_message() {
    let result = check(&vec![1, 3, 2], &container_eq(vec![1, 2, 3]), "vec![1, 3, 2]");
    assert!(failure(result).contains(
        "Value of: vec![1, 3, 2]\nExpected: is equal to [1, 2, 3]\nActual: [1, 3, 2],\n  which contains all the elements\n"
    ));
}

#[test]
fn container_eq_returns_mismatch_when_elements_out_of_order() {
    assert_eq!(
        shown(container_eq(vec![1, 2, 3]).explain_match(&vec![1, 3, 2])),
        "which contains all the elements"
    );
}

#[test]
fn container_eq_mismatch_shows_missing_elements_in_container() {
    assert_eq!(
        shown(container_eq(vec![1, 2, 3]).explain_match(&vec![1, 2])),
        "which is missing the element 3"
    );
}

#[test]
fn container_eq_mismatch_shows_surplus_elements_in_container() {
    assert_eq!(
        shown(container_eq(vec![1, 2]).explain_match(&vec![1, 2, 3])),
        "which contains the unexpected element 3"
    );
}

#[test]
fn container_eq_mismatch_shows_missing_and_surplus_elements_in_container() {
    assert_eq!(
        shown(container_eq(vec![1, 2, 3]).explain_match(&vec![1, 2, 4])),
        "which is missing the element 3 and contains the unexpected element 4"
    );
}

#[test]
fn container_eq_mismatch_does_not_show_duplicated_element() {
    assert_eq!(
        shown(container_eq(vec![1, 2, 3]).explain_match(&vec![1, 2, 3, 3])),
        "which contains all the elements"
    );
}

#[test]
fn container_eq_matches_owned_vec_with_array() {
    let vector = vec![123, 234];
    assert!(check(&vector, &container_eq([123, 234]), "vector").is_ok());
}

#[test]
fn container_eq_matches_owned_vec_of_owned_strings_with_slice_of_string_references() {
    let vector = vec!["A string".to_string(), "Another string".to_string()];
    assert!(check(&vector, &container_eq(["A string", "Another string"]), "vector").is_ok());
}

#[test]
fn container_eq_matches_owned_vec_of_owned_strings_with_shorter_slice_of_string_references() {
    let actual = vec!["A string".to_string(), "Another string".to_string()];
    let matcher = container_eq(["A string"]);

    let result = matcher.matches(&actual);

    assert_eq!(result, MatcherResult::NoMatch);
}

#[test]
fn container_eq_mismatch_with_slice_shows_missing_elements_in_container() {
    assert_eq!(
        shown(container_eq([1, 2, 3]).explain_match(&vec![1, 2])),
        "which is missing the element 3"
    );
}

#[test]
fn container_eq_mismatch_with_str_slice_shows_missing_elements_in_container() {
    assert_eq!(
        shown(container_eq(["A", "B", "C"]).explain_match(&vec!["A".to_string(), "B".to_string()])),
        "which is missing the element \"C\""
    );
}

#[test]
fn container_eq_mismatch_with_str_slice_shows_surplus_elements_in_container() {
    assert_eq!(
        shown(container_eq(["A", "B"]).explain_match(&vec![
            "A".to_string(),
            "B".to_string(),
            "C".to_string()
        ])),
        "which contains the unexpected element \"C\""
    );
}

#[test]
fn container_eq_lists_several_missing_elements() {
    assert_eq!(
        shown(container_eq(vec![1, 2, 3, 4]).explain_match(&vec![1])),
        "which is missing the elements [2, 3, 4]"
    );
}

#[test]
fn empty_matcher_match_empty_vec() {
    let value: Vec<i32> = vec![];
    assert!(check(&value, &is_empty(), "value").is_ok());
}

#[test]
fn empty_matcher_does_not_match_empty_vec() {
    let value = vec![1, 2, 3];
    assert!(check(&value, &not(is_empty()), "value").is_ok());
}

#[test]
fn empty_matcher_matches_empty_slice() {
    let value: &[i32] = &[];
    assert!(is_empty().matches(&value).is_match());
}

#[test]
fn empty_matcher_matches_empty_hash_set() {
    let value: HashSet<i32> = HashSet::new();
    assert!(is_empty().matches(&value).is_match());
    let full: HashSet<i32> = [1].into();
    assert!(is_empty().matches(&full).is_no_match());
}

#[test]
fn empty_matcher_matches_empty_ordered_collections() {
    let deque: VecDeque<i32> = VecDeque::new();
    assert!(is_empty().matches(&deque).is_match());
    let full_deque: VecDeque<i32> = VecDeque::from([1, 2]);
    assert!(is_empty().matches(&full_deque).is_no_match());
    let set: BTreeSet<i32> = BTreeSet::new();
    assert!(is_empty().matches(&set).is_match());
    let full_set: BTreeSet<i32> = BTreeSet::from([3]);
    assert!(is_empty().matches(&full_set).is_no_match());
    let map: BTreeMap<i32, i32> = BTreeMap::new();
    assert!(is_empty().matches(&map).is_match());
    let full_map: BTreeMap<i32, i32> = BTreeMap::from([(1, 2)]);
    assert!(is_empty().matches(&full_map).is_no_match());
}

#[test]
fn has_entry_does_not_match_empty_hash_map() {
    let value: HashMap<i32, i32> = HashMap::new();
    assert!(not(has_entry(0, eq(0))).matches(&value).is_match());
}

#[test]
fn has_entry_matches_hash_map_with_value() {
    let value: HashMap<i32, i32> = HashMap::from([(0, 0)]);
    assert!(has_entry(0, eq(0)).matches(&value).is_match());
}

#[test]
fn has_entry_does_not_match_hash_map_with_wrong_value() {
    let value: HashMap<i32, i32> = HashMap::from([(0, 1)]);
    assert!(not(has_entry(0, eq(0))).matches(&value).is_match());
}

#[test]
fn has_entry_does_not_match_hash_map_with_wrong_key() {
    let value: HashMap<i32, i32> = HashMap::from([(1, 0)]);
    assert!(not(has_entry(0, eq(0))).matches(&value).is_match());
}

#[test]
fn has_entry_explains_missing_key_and_non_matching_value() {
    let value: HashMap<i32, i32> = HashMap::from([(0, 0)]);
    assert_eq!(
        shown(has_entry::<i32, i32, _>(1, eq(0)).describe(MatcherResult::Match)),
        "contains key 1, which value is equal to 0"
    );
    assert_eq!(shown(has_entry(1, eq(0)).explain_match(&value)), "which doesn't contain key 1");
    assert_eq!(
        shown(has_entry(0, eq(1)).explain_match(&value)),
        "which contains key 0, but is mapped to value 0, which isn't equal to 1"
    );
}

#[test]
fn each_reports_every_failing_element() {
    let matcher = each(gt(15));
    assert!(matcher.matches(&vec![16, 20]).is_match());
    assert_eq!(
        shown(matcher.explain_match(&vec![19, 3, 23, 11])),
        "whose elements #1, #3 don't match\n3, which is less than or equal to 15\n11, which is less than or equal to 15"
    );
}

#[test]
fn elements_are_matches_elementwise() {
    let matcher = ElementsAre::<Vec<i32>, _>::new(vec![eq(1), eq(2)]);
    assert!(matcher.matches(&vec![1, 2]).is_match());
    assert!(matcher.matches(&vec![2, 1]).is_no_match());
    assert!(matcher.matches(&vec![1]).is_no_match());
}

#[test]
fn err_matches_result_with_err_value() {
    let matcher = err(eq(1));
    let value: std::result::Result<i32, i32> = Err(1);

    let result = matcher.matches(&value);

    assert_eq!(result, MatcherResult::Match);
}

#[test]
fn err_does_not_match_result_with_wrong_err_value() {
    let matcher = err(eq(1));
    let value: std::result::Result<i32, i32> = Err(0);

    let result = matcher.matches(&value);

    assert_eq!(result, MatcherResult::NoMatch);
}

#[test]
fn err_does_not_match_result_with_ok() {
    let matcher = err(eq(1));
    let value: std::result::Result<i32, i32> = Ok(1);

    let result = matcher.matches(&value);

    assert_eq!(result, MatcherResult::NoMatch);
}

#[test]
fn err_describe_matches() {
    let matcher = err::<i32, _>(eq::<i32, _>(1));
    assert_eq!(shown(matcher.describe(MatcherResult::Match)), "is an error which is equal to 1");
}

#[test]
fn err_explains_the_error_value() {
    let value: std::result::Result<i32, i32> = Err(1);
    assert_eq!(
        shown(err(eq(2)).explain_match(&value)),
        "which is an error\n  which isn't equal to 2"
    );
    let ok: std::result::Result<i32, i32> = Ok(1);
    assert_eq!(shown(err(eq(2)).explain_match(&ok)), "which is a success");
}

#[test]
fn fix_todo() {
    let matcher = contains(eq(&42));
    let val = 42;
    let result = matcher.matches(&vec![&val]);
    assert_eq!(result, MatcherResult::Match);
}

#[test]
fn err_full_error_message() {
    let result = check(&Err::<i32, i32>(1), &err(eq(2)), "Err::<i32, i32>(1)");

    assert!(failure(result).contains(
        "Value of: Err::<i32, i32>(1)\nExpected: is an error which is equal to 2\nActual: Err(1),\n  which is an error\n    which isn't equal to 2\n"
    ));
}

#[test]
fn container_eq_matches_hash_set() {
    let value: HashSet<i32> = [1, 2, 3].into();
    let expected: HashSet<i32> = [1, 2, 3].into();
    assert!(check(&value, &container_eq(expected), "value").is_ok());
}

#[test]
fn container_eq_on_hash_sets_names_missing_and_unexpected_elements() {
    let value: HashSet<i32> = [1, 2].into();
    let expected: HashSet<i32> = [1, 3].into();
    let matcher = container_eq(expected);
    assert!(matcher.matches(&value).is_no_match());
    assert_eq!(
        matcher.explain_match(&value).to_string(),
        "which is missing the element 3 and contains the unexpected element 2"
    );
    let one: HashSet<i32> = [7].into();
    assert_eq!(container_eq(one.clone()).describe(MatcherResult::Match).to_string(), "is equal to {7}");
    let mut printed = Vec::new();
    one.pretty_to(&mut printed);
    assert_eq!(printed.into_iter().collect::<String>(), "{\n    7,\n}");
}
