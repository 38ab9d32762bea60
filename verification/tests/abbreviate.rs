use googletest::internal::abbreviate::{
    abbreviate, ABBREVIATION_LENGTH_THRESHOLD, ABBREVIATION_MARGIN,
};

#[test]
fn abbreviate_does_not_affect_string_shorter_than_threshold_characters() {
    let input = format!("{}\\n", ".".repeat(ABBREVIATION_LENGTH_THRESHOLD - 2));

    let result = abbreviate(&input);

    assert_eq!(result, input.as_str());
}

#[test]
fn abbreviate_does_not_affect_string_with_more_than_one_line() {
    let input = format!("{}\n.", ".".repeat(ABBREVIATION_LENGTH_THRESHOLD));

    let result = abbreviate(&input);

    assert_eq!(result, input.as_str());
}

#[test]
fn abbreviate_does_not_affect_string_lacking_an_esacped_newline() {
    let input = ".".repeat(ABBREVIATION_LENGTH_THRESHOLD + 1);

    let result = abbreviate(&input);

    assert_eq!(result, input.as_str());
}

#[test]
fn abbreviate_shortens_string_longer_than_threshold_characters() {
    let input = format!("{}\\n", ".".repeat(ABBREVIATION_LENGTH_THRESHOLD - 1));
    let result_expected = format!(
        "{}…{}\\n",
        ".".repeat(ABBREVIATION_MARGIN),
        ".".repeat(ABBREVIATION_MARGIN - 2)
    );

    let result = abbreviate(&input);

    assert_eq!(result, result_expected);
}

#[test]
fn abbreviate_does_not_short_string_of_threshold_multi_byte_chars() {
    let input = format!("{}\\n", "ä".repeat(ABBREVIATION_LENGTH_THRESHOLD - 2));

    let result = abbreviate(&input);

    assert_eq!(result, input.as_str());
}

#[test]
fn abbreviate_shortens_string_based_on_character_count_with_multi_byte_chars() {
    let input = format!("{}\\n", "ä".repeat(ABBREVIATION_LENGTH_THRESHOLD - 1));
    let result_expected = format!(
        "{}…{}\\n",
        "ä".repeat(ABBREVIATION_MARGIN),
        "ä".repeat(ABBREVIATION_MARGIN - 2)
    );

    let result = abbreviate(&input);

    assert_eq!(result, result_expected);
}

#[test]
fn abbreviate_keeps_a_string_of_exactly_the_threshold() {
    let input = format!("{}\\n", ".".repeat(ABBREVIATION_LENGTH_THRESHOLD - 2));
    assert_eq!(input.chars().count(), ABBREVIATION_LENGTH_THRESHOLD);
    assert_eq!(abbreviate(&input), input);
    assert_eq!(abbreviate(""), "");
}
