use googletest::assertions::verify_that;
use googletest::internal::source_location::SourceLocation;
use googletest::matcher_support::auto_eq::{ExpectedKind, Wrapper};
use googletest::matcher_support::count_elements::count_from_size_hint;
use googletest::matchers::eq_matcher::eq;
use googletest::matchers::ge_matcher::ge;

fn here() -> SourceLocation {
    SourceLocation::new("tests/auto_eq.rs", 1, 1)
}

#[test]
fn auto_ref_matcher() {
    let expected = ge(9);
    let matcher = Wrapper(&expected).kind().matcher(expected);
    assert!(verify_that(&123, &matcher, "123", here()).is_ok());
}

#[test]
fn auto_ref_expected() {
    let expected = 123;
    let matcher = Wrapper(&expected).kind().matcher(expected);
    assert!(verify_that(&123, &matcher, "123", here()).is_ok());
    assert!(verify_that(&124, &matcher, "124", here()).is_err());
}

#[test]
fn auto_ref_on_ref_matcher() {
    let matcher = eq(123);
    let expected = &matcher;
    let chosen = Wrapper(&expected).kind().matcher(expected);
    assert!(verify_that(&123, &chosen, "123", here()).is_ok());
}

#[test]
fn count_elements_vec() {
    let v = vec![1, 2, 3];
    let it = v.iter();
    let (lower, upper) = it.size_hint();
    let n = count_from_size_hint(lower, upper).unwrap_or_else(|| it.count());
    assert_eq!(n, 3);
}

struct FakeIterator {
    hint: (usize, Option<usize>),
}

impl Iterator for FakeIterator {
    type Item = ();

    fn next(&mut self) -> Option<Self::Item> {
        None
    }

    fn size_hint(&self) -> (usize, Option<usize>) {
        self.hint
    }
}

#[test]
fn count_elements_with_unprecised_hint() {
    let it = FakeIterator { hint: (0, Some(123)) };
    let (lower, upper) = it.size_hint();
    assert_eq!(count_from_size_hint(lower, upper), None);
    assert_eq!(count_from_size_hint(lower, upper).unwrap_or_else(|| it.count()), 0);
}

#[test]
fn count_elements_with_no_hint() {
    let it = FakeIterator { hint: (0, None) };
    let (lower, upper) = it.size_hint();
    assert_eq!(count_from_size_hint(lower, upper), None);
    assert_eq!(count_from_size_hint(lower, upper).unwrap_or_else(|| it.count()), 0);
}

#[test]
fn exact_size_hint_gives_the_count() {
    assert_eq!(count_from_size_hint(7, Some(7)), Some(7));
    assert_eq!(count_from_size_hint(0, Some(0)), Some(0));
}
