use googletest::assertions::verify_that;
use googletest::description::Description;
use googletest::internal::source_location::SourceLocation;
use googletest::internal::test_outcome::TestAssertionFailure;
use googletest::matcher::{Matcher, MatcherResult, Printable};
use googletest::matchers::conjunction_matcher::AndMatcherExt;
use googletest::matchers::eq_matcher::eq;
use googletest::matchers::field_matcher::field_matcher;

fn check<M: Matcher>(actual: &M::ActualT, matcher: &M, expr: &str) -> Result<(), TestAssertionFailure>
where
    M::ActualT: Printable,
{
    verify_that(actual, matcher, expr, SourceLocation::new("tests/field_matcher.rs", 1, 1))
}

fn shown(d: Description) -> String {
    d.to_string()
}

#[derive(Debug)]
struct IntField {
    int: i32,
}

impl Printable for IntField {
    fn print_to(&self, out: &mut Vec<char>) {
        out.extend(format!("{:?}", self).chars());
    }

    fn pretty_to(&self, out: &mut Vec<char>) {
        out.extend(format!("{:#?}", self).chars());
    }
}

#[derive(Debug)]
struct Struct {
    a: i32,
    b: i32,
    c: i32,
}

impl Printable for Struct {
    fn print_to(&self, out: &mut Vec<char>) {
        out.extend(format!("{:?}", self).chars());
    }

    fn pretty_to(&self, out: &mut Vec<char>) {
        out.extend(format!("{:#?}", self).chars());
    }
}

#[derive(Debug)]
enum MyEnum {
    A(i32),
    B,
    C { value: i32 },
}

impl Printable for MyEnum {
    fn print_to(&self, out: &mut Vec<char>) {
        out.extend(format!("{:?}", self).chars());
    }

    fn pretty_to(&self, out: &mut Vec<char>) {
        out.extend(format!("{:#?}", self).chars());
    }
}

fn variant_a(o: &MyEnum) -> Option<&i32> {
    match o {
        MyEnum::A(v) => Some(v),
        _ => None,
    }
}

#[test]
fn field_matcher_matches_struct_field() {
    let matcher = field_matcher(|o: &IntField| Some(&o.int), "int", eq(32));
    assert!(check(&IntField { int: 32 }, &matcher, "IntField { int: 32 }").is_ok());
    assert!(matcher.matches(&IntField { int: 31 }).is_no_match());
}

#[test]
fn field_matcher_matches_enum_variant_field() {
    let matcher = field_matcher(variant_a, "A.0", eq(32));
    assert_eq!(matcher.matches(&MyEnum::A(32)), MatcherResult::Match);
    assert_eq!(matcher.matches(&MyEnum::A(31)), MatcherResult::NoMatch);
    assert_eq!(matcher.matches(&MyEnum::B), MatcherResult::NoMatch);
}

#[test]
fn field_matcher_describes_field_and_inner_matcher() {
    let matcher = field_matcher(|o: &IntField| Some(&o.int), "int", eq(32));
    assert_eq!(shown(matcher.describe(MatcherResult::Match)), "has field `int`, which is equal to 32");
    assert_eq!(
        shown(matcher.describe(MatcherResult::NoMatch)),
        "has field `int`, which isn't equal to 32"
    );
}

#[test]
fn field_matcher_explains_field_value() {
    let matcher = field_matcher(|o: &IntField| Some(&o.int), "int", eq(32));
    assert_eq!(
        shown(matcher.explain_match(&IntField { int: 31 })),
        "which has field `int`, which isn't equal to 32"
    );
}

#[test]
fn field_matcher_explains_wrong_enum_variant() {
    let matcher = field_matcher(variant_a, "A.0", eq(32));
    assert_eq!(shown(matcher.explain_match(&MyEnum::B)), "which has the wrong enum variant `B`");
    assert_eq!(
        shown(matcher.explain_match(&MyEnum::C { value: 1 })),
        "which has the wrong enum variant `C`"
    );
}

#[test]
fn field_matcher_failure_names_the_wrong_variant() {
    let matcher = field_matcher(variant_a, "A.0", eq(32));
    let message = match check(&MyEnum::B, &matcher, "MyEnum::B") {
        Ok(()) => panic!("the assertion should have failed"),
        Err(f) => f.to_string(),
    };
    assert!(message.contains("Expected: has field `A.0`, which is equal to 32"));
    assert!(message.contains("which has the wrong enum variant `B`"));
}

#[test]
fn chained_and_matches() {
    let matcher = field_matcher(|o: &Struct| Some(&o.a), "a", eq(1))
        .and(field_matcher(|o: &Struct| Some(&o.b), "b", eq(2)))
        .and(field_matcher(|o: &Struct| Some(&o.c), "c", eq(3)));
    assert!(check(&Struct { a: 1, b: 2, c: 3 }, &matcher, "Struct { a: 1, b: 2, c: 3 }").is_ok());
    assert!(check(&Struct { a: 1, b: 2, c: 4 }, &matcher, "Struct { a: 1, b: 2, c: 4 }").is_err());
}
