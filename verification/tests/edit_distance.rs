use googletest::matcher_support::edit_distance::{compress_prefix_and_suffix, edit_list, Difference, Edit, Mode};

#[test]
fn returns_equal_when_strings_are_equal() {
    let result = edit_list(&["A string"], &["A string"], Mode::Exact);
    assert_eq!(result, Difference::Equal);
}

#[test]
fn returns_sequence_of_two_common_parts() {
    let result = edit_list(
        &["A string (1)", "A string (2)"],
        &["A string (1)", "A string (2)"],
        Mode::Exact,
    );
    assert_eq!(result, Difference::Equal);
}

#[test]
fn returns_extra_actual_when_only_actual_has_content() {
    let result = edit_list(&["A string"], &[], Mode::Exact);
    assert_eq!(result, Difference::Editable(vec![Edit::ExtraActual("A string")]));
}

#[test]
fn returns_extra_expected_when_only_expected_has_content() {
    let result = edit_list(&[], &["A string"], Mode::Exact);
    assert_eq!(result, Difference::Editable(vec![Edit::ExtraExpected("A string")]));
}

#[test]
fn returns_extra_actual_followed_by_extra_expected_with_two_unequal_strings() {
    let result = edit_list(&["A string"], &["Another string"], Mode::Exact);
    assert_eq!(
        result,
        Difference::Editable(vec![
            Edit::ExtraActual("A string"),
            Edit::ExtraExpected("Another string"),
        ])
    );
}

#[test]
fn interleaves_extra_actual_and_extra_expected_when_multiple_lines_differ() {
    let result =
        edit_list(&["A string", "A string"], &["Another string", "Another string"], Mode::Exact);
    assert_eq!(
        result,
        Difference::Editable(vec![
            Edit::ExtraActual("A string"),
            Edit::ExtraExpected("Another string"),
            Edit::ExtraActual("A string"),
            Edit::ExtraExpected("Another string"),
        ])
    );
}

#[test]
fn returns_common_part_plus_difference_when_there_is_common_prefix() {
    let result = edit_list(
        &["Common part", "Actual only"],
        &["Common part", "Expected only"],
        Mode::Exact,
    );
    assert_eq!(
        result,
        Difference::Editable(vec![
            Edit::Both("Common part"),
            Edit::ExtraActual("Actual only"),
            Edit::ExtraExpected("Expected only"),
        ])
    );
}

#[test]
fn returns_common_part_plus_extra_actual_when_actual_has_extra_suffix() {
    let result = edit_list(&["Common part", "Actual only"], &["Common part"], Mode::Exact);
    assert_eq!(
        result,
        Difference::Editable(vec![Edit::Both("Common part"), Edit::ExtraActual("Actual only")])
    );
}

#[test]
fn returns_common_part_plus_extra_expected_when_expected_has_extra_suffix() {
    let result = edit_list(&["Common part"], &["Common part", "Expected only"], Mode::Exact);
    assert_eq!(
        result,
        Difference::Editable(vec![Edit::Both("Common part"), Edit::ExtraExpected("Expected only")])
    );
}

#[test]
fn returns_difference_plus_common_part_when_there_is_common_suffix() {
    let result = edit_list(
        &["Actual only", "Common part"],
        &["Expected only", "Common part"],
        Mode::Exact,
    );
    assert_eq!(
        result,
        Difference::Editable(vec![
            Edit::ExtraActual("Actual only"),
            Edit::ExtraExpected("Expected only"),
            Edit::Both("Common part"),
        ])
    );
}

#[test]
fn returns_difference_plus_common_part_plus_difference_when_there_is_common_infix() {
    let result = edit_list(
        &["Actual only (1)", "Common part", "Actual only (2)"],
        &["Expected only (1)", "Common part", "Expected only (2)"],
        Mode::Exact,
    );
    assert_eq!(
        result,
        Difference::Editable(vec![
            Edit::ExtraActual("Actual only (1)"),
            Edit::ExtraExpected("Expected only (1)"),
            Edit::Both("Common part"),
            Edit::ExtraActual("Actual only (2)"),
            Edit::ExtraExpected("Expected only (2)"),
        ])
    );
}

#[test]
fn returns_common_part_plus_difference_plus_common_part_when_there_is_common_prefix_and_suffix() {
    let result = edit_list(
        &["Common part (1)", "Actual only", "Common part (2)"],
        &["Common part (1)", "Expected only", "Common part (2)"],
        Mode::Exact,
    );
    assert_eq!(
        result,
        Difference::Editable(vec![
            Edit::Both("Common part (1)"),
            Edit::ExtraActual("Actual only"),
            Edit::ExtraExpected("Expected only"),
            Edit::Both("Common part (2)"),
        ])
    );
}

#[test]
fn returns_common_part_plus_extra_actual_plus_common_part_when_there_is_common_prefix_and_suffix() {
    let result = edit_list(
        &["Common part (1)", "Actual only", "Common part (2)"],
        &["Common part (1)", "Common part (2)"],
        Mode::Exact,
    );
    assert_eq!(
        result,
        Difference::Editable(vec![
            Edit::Both("Common part (1)"),
            Edit::ExtraActual("Actual only"),
            Edit::Both("Common part (2)"),
        ])
    );
}

#[test]
fn returns_common_part_plus_extra_expected_plus_common_part_when_there_is_common_prefix_and_suffix(
) {
    let result = edit_list(
        &["Common part (1)", "Common part (2)"],
        &["Common part (1)", "Expected only", "Common part (2)"],
        Mode::Exact,
    );
    assert_eq!(
        result,
        Difference::Editable(vec![
            Edit::Both("Common part (1)"),
            Edit::ExtraExpected("Expected only"),
            Edit::Both("Common part (2)"),
        ])
    );
}

#[test]
fn skips_extra_parts_on_actual_at_end_in_prefix_mode() {
    let result = edit_list(
        &["Common part", "Actual only"],
        &["Expected only", "Common part"],
        Mode::Prefix,
    );
    match result {
        Difference::Editable(edits) => {
            assert!(!edits.contains(&Edit::ExtraActual("Actual only")));
        }
        other => panic!("expected an edit list, got {:?}", other),
    }
}

#[test]
fn does_not_skip_extra_parts_on_actual_in_prefix_mode_at_end_when_they_are_in_common() {
    let result = edit_list(
        &["Actual only", "Common part"],
        &["Expected only", "Common part"],
        Mode::Prefix,
    );
    assert_eq!(
        result,
        Difference::Editable(vec![
            Edit::ExtraActual("Actual only"),
            Edit::ExtraExpected("Expected only"),
            Edit::Both("Common part"),
        ])
    );
}

#[test]
fn does_not_skip_corresponding_line_on_actual_when_actual_and_expected_differ_in_prefix_mode() {
    let result = edit_list(&["Actual only"], &["Expected only"], Mode::Prefix);
    assert_eq!(
        result,
        Difference::Editable(vec![
            Edit::ExtraActual("Actual only"),
            Edit::ExtraExpected("Expected only"),
            Edit::AdditionalActual,
        ])
    );
}

#[test]
fn returns_unrelated_when_maximum_distance_exceeded() {
    let actual: Vec<i32> = (0..=50).collect();
    let expected: Vec<i32> = (60..110).collect();
    let result = edit_list(&actual, &expected, Mode::Exact);
    assert_eq!(result, Difference::Unrelated);
}

fn apply_to_actual<T: Copy + PartialEq + std::fmt::Debug>(edits: &[Edit<T>], actual: &[T]) -> Vec<T> {
    let mut result = Vec::new();
    let mut i = 0;
    for edit in edits {
        match edit {
            Edit::Both(v) => {
                assert_eq!(actual[i], *v);
                result.push(*v);
                i += 1;
            }
            Edit::ExtraActual(v) => {
                assert_eq!(actual[i], *v);
                i += 1;
            }
            Edit::ExtraExpected(v) => result.push(*v),
            Edit::AdditionalActual => {}
        }
    }
    assert_eq!(i, actual.len());
    result
}

#[test]
fn edit_list_turns_actual_into_expected_on_small_inputs() {
    let cases: Vec<(Vec<i32>, Vec<i32>)> = vec![
        (vec![1, 2, 3], vec![1, 3]),
        (vec![], vec![4, 5]),
        (vec![1, 1, 2, 2], vec![2, 1, 2, 1]),
        (vec![3, 1, 4, 1, 5], vec![2, 7, 1, 8, 2, 8]),
    ];
    for (actual, expected) in cases {
        match edit_list(&actual, &expected, Mode::Exact) {
            Difference::Editable(edits) => {
                assert_eq!(apply_to_actual(&edits, &actual), expected);
            }
            other => panic!("unexpected {:?}", other),
        }
    }
}

#[test]
fn equal_inputs_are_reported_equal_in_every_mode() {
    for mode in [Mode::Exact, Mode::Prefix, Mode::Contains] {
        assert_eq!(edit_list(&[1, 2, 3], &[1, 2, 3], mode), Difference::Equal);
    }
}

/// The number of insertions and deletions that turn `a` into `x`.
fn insert_delete_distance(a: &[char], x: &[char]) -> usize {
    let mut lcs = vec![vec![0usize; x.len() + 1]; a.len() + 1];
    for i in 0..a.len() {
        for j in 0..x.len() {
            lcs[i + 1][j + 1] =
                if a[i] == x[j] { lcs[i][j] + 1 } else { lcs[i][j + 1].max(lcs[i + 1][j]) };
        }
    }
    a.len() + x.len() - 2 * lcs[a.len()][x.len()]
}

#[test]
fn editable_lists_have_at_most_the_maximum_number_of_changes() {
    let actual: Vec<char> = "kitten sitting on the mat".chars().collect();
    let expected: Vec<char> = "sitting kitten at the mall".chars().collect();
    match edit_list(&actual, &expected, Mode::Exact) {
        Difference::Editable(edits) => {
            let changes = edits
                .iter()
                .filter(|e| matches!(e, Edit::ExtraActual(_) | Edit::ExtraExpected(_)))
                .count();
            assert!(changes <= 50);
            assert!(changes >= insert_delete_distance(&actual, &expected));
        }
        other => panic!("unexpected {:?}", other),
    }
}

#[test]
fn inputs_just_under_the_maximum_distance_are_editable() {
    // These inputs are 49 insertions and deletions apart.
    let actual: Vec<char> = "dfcgbdbcfhcgdgbdfgfbhdaafababdggaehcca".chars().collect();
    let expected: Vec<char> = "ehchaaheacgefghhhaefdhcbfegfgcgeeegeg".chars().collect();
    assert_eq!(insert_delete_distance(&actual, &expected), 49);
    match edit_list(&actual, &expected, Mode::Exact) {
        Difference::Editable(edits) => {
            assert_eq!(change_count(&edits), 49);
            assert_eq!(apply_to_actual(&edits, &actual), expected);
        }
        other => panic!("unexpected {:?}", other),
    }
}

#[test]
fn exact_edit_lists_have_the_fewest_changes() {
    let actual: Vec<char> = "kitten sitting on the mat".chars().collect();
    let expected: Vec<char> = "sitting kitten at the mall".chars().collect();
    match edit_list(&actual, &expected, Mode::Exact) {
        Difference::Editable(edits) => {
            assert_eq!(change_count(&edits), insert_delete_distance(&actual, &expected));
        }
        other => panic!("unexpected {:?}", other),
    }
}

#[test]
fn inputs_at_more_than_the_maximum_distance_are_unrelated() {
    let actual: Vec<i32> = (0..26).collect();
    let expected: Vec<i32> = (100..126).collect();
    assert_eq!(edit_list(&actual, &expected, Mode::Exact), Difference::Unrelated);
    let fewer: Vec<i32> = (0..25).collect();
    let shorter: Vec<i32> = (100..125).collect();
    match edit_list(&fewer, &shorter, Mode::Exact) {
        Difference::Editable(edits) => assert_eq!(change_count(&edits), 50),
        other => panic!("unexpected {:?}", other),
    }
}

/// The number of edits that add or drop an element.
fn change_count<T>(edits: &[Edit<T>]) -> usize {
    edits.iter().filter(|e| matches!(e, Edit::ExtraActual(_) | Edit::ExtraExpected(_))).count()
}

#[test]
fn contains_mode_keeps_the_extra_actual_element_before_an_extra_expected_one() {
    let mut edits = vec![Edit::ExtraActual("a"), Edit::ExtraExpected("x"), Edit::Both("c")];
    compress_prefix_and_suffix(&mut edits);
    assert_eq!(
        edits,
        vec![
            Edit::AdditionalActual,
            Edit::ExtraActual("a"),
            Edit::ExtraExpected("x"),
            Edit::Both("c"),
            Edit::AdditionalActual
        ]
    );
}

#[test]
fn contains_mode_drops_leading_and_trailing_extra_actual_elements() {
    let mut edits = vec![
        Edit::ExtraActual(1),
        Edit::ExtraActual(2),
        Edit::Both(3),
        Edit::ExtraActual(4),
        Edit::ExtraActual(5),
    ];
    compress_prefix_and_suffix(&mut edits);
    assert_eq!(edits, vec![Edit::AdditionalActual, Edit::Both(3), Edit::AdditionalActual]);
}
