//! Small structures that tests of field matchers use.

use vstd::prelude::*;

verus! {

/// A structure with one field.
pub struct TestStruct {
    pub value: u32,
}

impl TestStruct {
    /// The field's value.
    pub fn get_value(&self) -> (v: u32)
        ensures
            v == self.value,
    {
        self.value
    }
}

/// A generic structure with one field.
pub struct GenericTestStruct<T> {
    pub value: T,
}

impl<T> GenericTestStruct<T> {
    /// Gives back its argument.
    pub fn get_value<U>(&self, a: U) -> (r: U)
        ensures
            r == a,
    {
        a
    }
}

} // verus!
