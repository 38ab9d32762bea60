//! A matcher for hash maps holding a key whose value an inner matcher
//! matches.

use vstd::prelude::*;
use core::marker::PhantomData;
use std::collections::HashMap;
use vstd::std_specs::hash::obeys_key_model;
use crate::description::{is_text, shown, Description};
use crate::matcher::{Matcher, MatcherResult, Printable};
use crate::text::{push_all, push_str};

verus! {

broadcast use vstd::std_specs::hash::group_hash_axioms;

/// Keys whose hashing and equality the hash map model covers: integers.
pub trait MapKey: Printable + Eq + core::hash::Hash + Sized {
    /// Maps keyed by this type behave as the map model says.
    proof fn lemma_key_model()
        ensures
            obeys_key_model::<Self>(),
    ;
}

impl MapKey for i32 {
    proof fn lemma_key_model() {
    }
}

impl MapKey for i64 {
    proof fn lemma_key_model() {
    }
}

impl MapKey for u32 {
    proof fn lemma_key_model() {
    }
}

impl MapKey for u64 {
    proof fn lemma_key_model() {
    }
}

impl MapKey for usize {
    proof fn lemma_key_model() {
    }
}

/// Matches a hash map holding `key`, whose value `inner` matches.
pub fn has_entry<K: MapKey, V, M: Matcher<ActualT = V>>(key: K, inner: M) -> (m: HasEntryMatcher<K, V, M>)
    ensures
        m.key == key,
        m.inner == inner,
{
    HasEntryMatcher { key, inner, phantom: PhantomData }
}

/// Matches a hash map holding `key`, whose value `inner` matches.
pub struct HasEntryMatcher<K, V, M> {
    pub key: K,
    pub inner: M,
    pub phantom: PhantomData<V>,
}

/// The description of [`has_entry`] given the printed key and the rendered
/// description of the inner matcher.
pub open spec fn has_entry_text(r: MatcherResult, key: Seq<char>, inner: Seq<char>) -> Seq<char> {
    match r {
        MatcherResult::Match => "contains key "@ + key + ", which value "@ + inner,
        MatcherResult::NoMatch => "doesn't contain key "@ + key + " or contains key "@ + key + ", which value "@ + inner,
    }
}

impl<K: MapKey, V: Printable, M: Matcher<ActualT = V>> Matcher for HasEntryMatcher<K, V, M> {
    type ActualT = HashMap<K, V>;

    open spec fn accepts(&self, actual: &HashMap<K, V>) -> bool {
        actual@.contains_key(self.key) && self.inner.accepts(&actual@[self.key])
    }

    open spec fn describes(&self, r: MatcherResult, d: Description) -> bool {
        exists|d1: Description|
            #[trigger] self.inner.describes(r, d1) && is_text(d, has_entry_text(r, self.key.printed(), shown(d1)))
    }

    open spec fn explains(&self, actual: &HashMap<K, V>, d: Description) -> bool {
        if actual@.contains_key(self.key) {
            exists|e1: Description|
                #[trigger] self.inner.explains(&actual@[self.key], e1) && is_text(
                    d,
                    "which contains key "@ + self.key.printed() + ", but is mapped to value "@
                        + actual@[self.key].pretty() + ", "@ + shown(e1),
                )
        } else {
            is_text(d, "which doesn't contain key "@ + self.key.printed())
        }
    }

    fn matches(&self, actual: &HashMap<K, V>) -> MatcherResult {
        proof {
            K::lemma_key_model();
        }
        match actual.get(&self.key) {
            Some(value) => self.inner.matches(value),
            None => MatcherResult::NoMatch,
        }
    }

    fn describe(&self, matcher_result: MatcherResult) -> Description {
        let d1 = self.inner.describe(matcher_result);
        let t1 = d1.to_chars();
        let mut v: Vec<char> = Vec::new();
        match matcher_result {
            MatcherResult::Match => {
                push_str(&mut v, "contains key ");
                self.key.print_to(&mut v);
            },
            MatcherResult::NoMatch => {
                push_str(&mut v, "doesn't contain key ");
                self.key.print_to(&mut v);
                push_str(&mut v, " or contains key ");
                self.key.print_to(&mut v);
            },
        }
        push_str(&mut v, ", which value ");
        push_all(&mut v, t1.as_slice());
        assert(v@ =~= has_entry_text(matcher_result, self.key.printed(), shown(d1)));
        assert(self.inner.describes(matcher_result, d1));
        Description::from_chars(v.as_slice())
    }

    fn explain_match(&self, actual: &HashMap<K, V>) -> Description {
        proof {
            K::lemma_key_model();
        }
        match actual.get(&self.key) {
            Some(value) => {
                let e1 = self.inner.explain_match(value);
                let t1 = e1.to_chars();
                let mut v: Vec<char> = Vec::new();
                push_str(&mut v, "which contains key ");
                self.key.print_to(&mut v);
                push_str(&mut v, ", but is mapped to value ");
                value.pretty_to(&mut v);
                push_str(&mut v, ", ");
                push_all(&mut v, t1.as_slice());
                assert(self.inner.explains(value, e1));
                Description::from_chars(v.as_slice())
            },
            None => {
                let mut v: Vec<char> = Vec::new();
                push_str(&mut v, "which doesn't contain key ");
                self.key.print_to(&mut v);
                Description::from_chars(v.as_slice())
            },
        }
    }
}

} // verus!
