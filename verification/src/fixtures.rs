//! Fixtures: values that a test sets up before it runs and tears down after.

use vstd::prelude::*;
use crate::internal::test_outcome::TestAssertionFailure;

verus! {

/// A value set up before a test and torn down after it.
pub trait Fixture: Sized {
    /// Sets the fixture up; an error fails the test without running it.
    fn set_up() -> Result<Self, TestAssertionFailure>;

    /// Tears the fixture down after the test, whether it passed or not.
    fn tear_down(self) -> Result<(), TestAssertionFailure>;
}

/// A value set up before a test and handed to it, which consumes it.
pub trait ConsumableFixture: Sized {
    /// Sets the fixture up; an error means the test does not run.
    fn set_up() -> Result<Self, TestAssertionFailure>;
}

/// A value set up once and shared by every test that uses it.
pub trait StaticFixture: Sized + Sync + Send {
    /// Sets the fixture up, before the first test that uses it.
    fn set_up_once() -> Result<Self, TestAssertionFailure>;
}

/// A fixture holding the default value of `T`.
pub struct FixtureOf<T>(pub T);

impl<T: Default> ConsumableFixture for FixtureOf<T> {
    /// Always succeeds, with the default value of `T`.
    fn set_up() -> (r: Result<Self, TestAssertionFailure>)
        ensures
            r matches Ok(f) && call_ensures(T::default, (), f.0),
    {
        Ok(FixtureOf(T::default()))
    }
}

impl<T> FixtureOf<T> {
    /// The value held.
    pub fn get(&self) -> (r: &T)
        ensures
            r == &self.0,
    {
        &self.0
    }

    /// The value held, for changing it.
    pub fn get_mut(&mut self) -> (r: &mut T)
        ensures
            *r == old(self).0,
            final(self).0 == *final(r),
    {
        &mut self.0
    }
}

impl<T> core::ops::Deref for FixtureOf<T> {
    type Target = T;

    fn deref(&self) -> (r: &T) {
        &self.0
    }
}

} // verus!
