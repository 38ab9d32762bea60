use googletest::fixtures::{ConsumableFixture, Fixture, FixtureOf};
use googletest::internal::test_outcome::TestAssertionFailure;

struct AlwaysSucceed;

impl Fixture for AlwaysSucceed {
    fn set_up() -> Result<Self, TestAssertionFailure> {
        Ok(Self)
    }

    fn tear_down(self) -> Result<(), TestAssertionFailure> {
        Ok(())
    }
}

struct NotAFixture {
    a_field: i32,
}

impl Default for NotAFixture {
    fn default() -> Self {
        Self { a_field: 33 }
    }
}

/// Runs `test` between the set-up and the tear-down of one fixture.
fn with_fixture<F: Fixture>(test: impl FnOnce(&F) -> Result<(), TestAssertionFailure>) -> Result<(), TestAssertionFailure> {
    let fixture = F::set_up()?;
    let result = test(&fixture);
    let torn_down = fixture.tear_down();
    result.and(torn_down)
}

#[test]
fn fixture_no_fixture() {
    let result: Result<(), TestAssertionFailure> = Ok(());
    assert!(result.is_ok());
}

#[test]
fn fixture_one_fixture() {
    assert!(with_fixture::<AlwaysSucceed>(|_| Ok(())).is_ok());
}

#[test]
fn fixture_three_fixtures() {
    let result = with_fixture::<AlwaysSucceed>(|_| {
        with_fixture::<AlwaysSucceed>(|_| with_fixture::<AlwaysSucceed>(|_| Ok(())))
    });
    assert!(result.is_ok());
}

#[test]
fn fixture_of_non_fixture() {
    let not_a_fixture = match FixtureOf::<NotAFixture>::set_up() {
        Ok(f) => f,
        Err(_) => panic!("a fixture of a default value always sets up"),
    };
    assert_eq!(not_a_fixture.a_field, 33);
    assert_eq!(not_a_fixture.get().a_field, 33);
}

#[test]
fn fixture_of_non_fixture_mut() {
    let mut not_a_fixture = match FixtureOf::<NotAFixture>::set_up() {
        Ok(f) => f,
        Err(_) => panic!("a fixture of a default value always sets up"),
    };
    not_a_fixture.get_mut().a_field += 10;
    assert_eq!(not_a_fixture.a_field, 43);
}

struct FailingFixture;

impl Fixture for FailingFixture {
    fn set_up() -> Result<Self, TestAssertionFailure> {
        Err(TestAssertionFailure::create(
            "sad fixture".to_string(),
            googletest::internal::source_location::SourceLocation::new("fixtures.rs", 1, 1),
        ))
    }

    fn tear_down(self) -> Result<(), TestAssertionFailure> {
        unreachable!();
    }
}

#[test]
fn failing_set_up_keeps_the_test_from_running() {
    let mut ran = false;
    let result = with_fixture::<FailingFixture>(|_| {
        ran = true;
        Ok(())
    });
    assert!(!ran);
    assert_eq!(result.err().map(|f| f.description), Some("sad fixture".to_string()));
}
