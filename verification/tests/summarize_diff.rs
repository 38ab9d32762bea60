use googletest::matcher_support::edit_distance::Mode;
use googletest::matcher_support::summarize_diff::create_diff;

fn build_text(from: i32, to: i32) -> String {
    let items: Vec<String> = (from..to).map(|i| i.to_string()).collect();
    items.join("\n")
}

#[test]
fn create_diff_smaller_than_one_line() {
    assert_eq!(create_diff("One", "Two", Mode::Exact, false), "");
}

#[test]
fn create_diff_exact_same() {
    let expected = "One\nTwo\n";
    let actual = "One\nTwo\n";
    assert_eq!(
        create_diff(expected, actual, Mode::Exact, false),
        "No difference found between debug strings."
    );
}

#[test]
fn create_diff_multiline_diff() {
    let expected = "prefix\nActual#1\nActual#2\nActual#3\nsuffix";
    let actual = "prefix\nExpected@one\nExpected@two\nsuffix";
    assert_eq!(
        create_diff(expected, actual, Mode::Exact, false),
        "\nDifference(-actual / +expected):\n prefix\n-Actual#1\n+Expected@one\n-Actual#2\n+Expected@two\n-Actual#3\n suffix"
    );
}

#[test]
fn create_diff_exact_unrelated() {
    assert_eq!(create_diff(&build_text(1, 500), &build_text(501, 1000), Mode::Exact, false), "");
}

#[test]
fn create_diff_exact_small_difference() {
    assert_eq!(
        create_diff(&build_text(1, 50), &build_text(1, 51), Mode::Exact, false),
        "\nDifference(-actual / +expected):\n 1\n 2\n <---- 45 common lines omitted ---->\n 48\n 49\n+50"
    );
}

#[test]
fn create_diff_exact_small_difference_with_color() {
    assert_eq!(
        create_diff(&build_text(1, 50), &build_text(1, 51), Mode::Exact, true),
        "\nDifference(-\x1B[1;31mactual\x1B[0m / +\x1B[1;32mexpected\x1B[0m):\n 1\n 2\n \x1B[3m<---- 45 common lines omitted ---->\x1B[0m\n 48\n 49\n+\x1B[1;32m50\x1B[0m"
    );
}

#[test]
fn create_diff_exact_difference_with_inline_color() {
    let actual = "There is a home in Nouvelle Orleans\nThey say, it is the rising sons\nAnd it has been the ruin of many a po'boy";
    let expected = "There is a house way down in New Orleans\nThey call the rising sun\nAnd it has been the ruin of many a poor boy";
    let want = [
        "\nDifference(-\x1B[1;31mactual\x1B[0m / +\x1B[1;32mexpected\x1B[0m):\n",
        "-\x1B[31mThere is a ho\x1B[0m\x1B[1;31mm\x1B[0m\x1B[31me in N\x1B[0m\x1B[1;31mouv\x1B[0m\x1B[31me\x1B[0m\x1B[1;31mlle\x1B[0m\x1B[31m Orleans\x1B[0m\n",
        "+\x1B[32mThere is a ho\x1B[0m\x1B[1;32mus\x1B[0m\x1B[32me \x1B[0m\x1B[1;32mway down \x1B[0m\x1B[32min Ne\x1B[0m\x1B[1;32mw\x1B[0m\x1B[32m Orleans\x1B[0m\n",
        "-\x1B[31mThey \x1B[0m\x1B[1;31ms\x1B[0m\x1B[31ma\x1B[0m\x1B[1;31my,\x1B[0m\x1B[31m \x1B[0m\x1B[1;31mi\x1B[0m\x1B[31mt\x1B[0m\x1B[1;31m is t\x1B[0m\x1B[31mhe rising s\x1B[0m\x1B[1;31mo\x1B[0m\x1B[31mn\x1B[0m\x1B[1;31ms\x1B[0m\n",
        "+\x1B[32mThey \x1B[0m\x1B[1;32mc\x1B[0m\x1B[32ma\x1B[0m\x1B[1;32mll\x1B[0m\x1B[32m the rising s\x1B[0m\x1B[1;32mu\x1B[0m\x1B[32mn\x1B[0m\n",
        "-\x1B[31mAnd it has been the ruin of many a po\x1B[0m\x1B[1;31m'\x1B[0m\x1B[31mboy\x1B[0m\n",
        "+\x1B[32mAnd it has been the ruin of many a po\x1B[0m\x1B[1;32mor \x1B[0m\x1B[32mboy\x1B[0m",
    ]
    .concat();
    assert_eq!(create_diff(actual, expected, Mode::Exact, true), want);
}

#[test]
fn create_diff_in_prefix_mode_omits_extra_actual_lines() {
    let diff = create_diff("a\nb\nc\nd", "a\nX", Mode::Prefix, false);
    assert!(diff.starts_with("\nDifference(-actual / +expected):\n a\n"));
    assert!(diff.contains("+X"));
}
