//! The number of elements of a collection.

use vstd::prelude::*;
use std::collections::{BTreeMap, BTreeSet, HashMap, HashSet, VecDeque};
use vstd::std_specs::btree::{spec_btree_map_len, spec_btree_set_len};
use vstd::std_specs::hash::{spec_hash_map_len, spec_hash_set_len};

verus! {

/// Collections with a number of elements.
pub trait HasSize {
    /// The number of elements.
    spec fn size_of(&self) -> nat;

    /// The number of elements.
    fn size(&self) -> (n: usize)
        ensures
            n == self.size_of(),
    ;
}

impl<T> HasSize for Vec<T> {
    open spec fn size_of(&self) -> nat {
        self@.len()
    }

    fn size(&self) -> (n: usize) {
        self.len()
    }
}

impl<'a, T> HasSize for &'a [T] {
    open spec fn size_of(&self) -> nat {
        self@.len()
    }

    fn size(&self) -> (n: usize) {
        self.len()
    }
}

impl<T, const N: usize> HasSize for [T; N] {
    open spec fn size_of(&self) -> nat {
        N as nat
    }

    fn size(&self) -> (n: usize) {
        N
    }
}

impl<T> HasSize for HashSet<T> {
    open spec fn size_of(&self) -> nat {
        spec_hash_set_len(self) as nat
    }

    fn size(&self) -> (n: usize) {
        self.len()
    }
}

impl<K, V> HasSize for HashMap<K, V> {
    open spec fn size_of(&self) -> nat {
        spec_hash_map_len(self) as nat
    }

    fn size(&self) -> (n: usize) {
        self.len()
    }
}

impl<T> HasSize for VecDeque<T> {
    open spec fn size_of(&self) -> nat {
        self@.len()
    }

    fn size(&self) -> (n: usize) {
        self.len()
    }
}

impl<T> HasSize for BTreeSet<T> {
    open spec fn size_of(&self) -> nat {
        spec_btree_set_len(self) as nat
    }

    fn size(&self) -> (n: usize) {
        self.len()
    }
}

impl<K, V> HasSize for BTreeMap<K, V> {
    open spec fn size_of(&self) -> nat {
        spec_btree_map_len(self) as nat
    }

    fn size(&self) -> (n: usize) {
        self.len()
    }
}

} // verus!
