use googletest::description::Description;
use googletest::matcher::{Matcher, MatcherResult};
use googletest::matchers::display_matcher::displays_as;
use googletest::matchers::eq_matcher::eq;

fn assert_displays_as(description: &Description, expected: &str) {
    assert_eq!(description.to_string(), expected);
    let matcher = displays_as::<Description, _>(eq(expected.to_string()));
    assert_eq!(matcher.matches(description), MatcherResult::Match);
}

fn texts(items: &[&str]) -> Description {
    Description::from_texts(items.iter().map(|s| s.to_string()).collect())
}

#[test]
fn renders_single_fragment() {
    let description = Description::from_text("A B C");
    assert_displays_as(&description, "A B C");
}

#[test]
fn renders_two_fragments() {
    let description = texts(&["A B C", "D E F"]);
    assert_displays_as(&description, "A B C\nD E F");
}

#[test]
fn nested_description_is_indented() {
    let description = Description::new().text("Header").nested(texts(&["A B C"]));
    assert_displays_as(&description, "Header\n  A B C");
}

#[test]
fn nested_description_indents_two_elements() {
    let description = Description::new().text("Header").nested(texts(&["A B C", "D E F"]));
    assert_displays_as(&description, "Header\n  A B C\n  D E F");
}

#[test]
fn nested_description_indents_one_element_on_two_lines() {
    let description =
        Description::new().text("Header").nested(Description::from_text("A B C\nD E F"));
    assert_displays_as(&description, "Header\n  A B C\n  D E F");
}

#[test]
fn single_fragment_renders_with_bullet_when_bullet_list_enabled() {
    let description = Description::new().text("A B C").bullet_list();
    assert_displays_as(&description, "* A B C");
}

#[test]
fn single_nested_fragment_renders_with_bullet_when_bullet_list_enabled() {
    let description = Description::new().nested(Description::from_text("A B C")).bullet_list();
    assert_displays_as(&description, "* A B C");
}

#[test]
fn two_fragments_render_with_bullet_when_bullet_list_enabled() {
    let description = Description::new().text("A B C").text("D E F").bullet_list();
    assert_displays_as(&description, "* A B C\n* D E F");
}

#[test]
fn two_nested_fragments_render_with_bullet_when_bullet_list_enabled() {
    let description = Description::new()
        .nested(Description::from_text("A B C"))
        .nested(Description::from_text("D E F"))
        .bullet_list();
    assert_displays_as(&description, "* A B C\n* D E F");
}

#[test]
fn single_fragment_with_more_than_one_line_renders_with_one_bullet() {
    let description = Description::new().text("A B C\nD E F").bullet_list();
    assert_displays_as(&description, "* A B C\n  D E F");
}

#[test]
fn single_fragment_renders_with_enumeration_when_enumerate_enabled() {
    let description = Description::new().text("A B C").enumerate();
    assert_displays_as(&description, "0. A B C");
}

#[test]
fn two_fragments_render_with_enumeration_when_enumerate_enabled() {
    let description = Description::new().text("A B C").text("D E F").enumerate();
    assert_displays_as(&description, "0. A B C\n1. D E F");
}

#[test]
fn single_fragment_with_two_lines_renders_with_one_enumeration_label() {
    let description = Description::new().text("A B C\nD E F").enumerate();
    assert_displays_as(&description, "0. A B C\n   D E F");
}

#[test]
fn multi_digit_enumeration_renders_with_correct_offset() {
    let description = texts(&["A B C\nD E F"; 11]).enumerate();
    let mut expected = String::new();
    for i in 0..11 {
        if i > 0 {
            expected.push('\n');
        }
        expected.push_str(&format!("{:>2}. A B C\n    D E F", i));
    }
    assert_displays_as(&description, &expected);
}

#[test]
fn one_line_text_renders_as_itself() {
    for text in ["", "plain", "with  spaces", "ünïcödé"] {
        assert_eq!(Description::from_text(text).to_string(), text);
    }
}

#[test]
fn indent_and_collect_render_nested_blocks() {
    let description = Description::new()
        .text("Head")
        .collect(vec![Description::from_text("x"), Description::from_text("y")])
        .indent();
    assert_eq!(description.to_string(), "  Head\n    x\n    y");
    assert_eq!(description.len(), 3);
    assert!(!description.is_empty());
    assert!(Description::new().is_empty());
}
