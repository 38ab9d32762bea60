//! The elements of hash sets, in the order in which a set hands them out,
//! and the printed forms of hash sets.

use vstd::prelude::*;
use std::collections::HashSet;
use vstd::std_specs::hash::{into_iter_hash_keys, obeys_key_model, spec_hash_keys_iter};
use crate::matcher::{printed_items, print_items, printed_pretty_chars, push_indented, EqualTo, Printable};

verus! {

/// Hash set elements that the library lists and compares: their hashing
/// follows vstd's model of hash table keys, and [`EqualTo`] on them is
/// identity.
pub trait SetElement: Copy + Printable + EqualTo<Self> + Sized {
    /// The two properties of set elements.
    proof fn lemma_set_element()
        ensures
            obeys_key_model::<Self>(),
            forall|a: Self, b: Self| #[trigger] a.equal_to(&b) <==> a == b,
    ;
}

impl SetElement for i32 {
    proof fn lemma_set_element() {
    }
}

impl SetElement for i64 {
    proof fn lemma_set_element() {
    }
}

impl SetElement for u32 {
    proof fn lemma_set_element() {
    }
}

impl SetElement for u64 {
    proof fn lemma_set_element() {
    }
}

impl SetElement for usize {
    proof fn lemma_set_element() {
    }
}

impl SetElement for bool {
    proof fn lemma_set_element() {
    }
}

/// The elements of `s` in the order in which its iterator hands them out.
pub open spec fn set_order<T>(s: &HashSet<T>) -> Seq<T> {
    into_iter_hash_keys(spec_hash_keys_iter(s))
}

/// The elements of `s`, in the order in which it hands them out: each
/// element once.
pub fn set_items<T: SetElement>(s: &HashSet<T>) -> (r: Vec<T>)
    ensures
        r@ == set_order(s),
        r@.no_duplicates(),
        r@.to_set() == s@,
{
    proof {
        T::lemma_set_element();
    }
    let mut r: Vec<T> = Vec::new();
    let it = s.iter();
    let ghost all = set_order(s);
    for x in iter: it
        invariant
            all == set_order(s),
            iter.seq().unref() == all,
            r@ == all.take(iter.index() as int),
    {
        r.push(*x);
        assert(r@ =~= all.take(iter.index() as int + 1));
    }
    assert(all.take(all.len() as int) =~= all);
    r
}

/// The pretty-printed form of a set with the elements `items`.
pub open spec fn pretty_set<T: Printable>(items: Seq<T>) -> Seq<char> {
    if items.len() == 0 {
        seq!['{', '}']
    } else {
        seq!['{', '\n'] + crate::matcher::pretty_items(items) + seq!['}']
    }
}

impl<T: SetElement> Printable for HashSet<T> {
    open spec fn printed(&self) -> Seq<char> {
        seq!['{'] + printed_items(set_order(self)) + seq!['}']
    }

    fn print_to(&self, out: &mut Vec<char>) {
        let ghost start = out@;
        let items = set_items(self);
        out.push('{');
        print_items(items.as_slice(), out);
        out.push('}');
        assert(out@ =~= start + self.printed());
    }

    open spec fn pretty(&self) -> Seq<char> {
        pretty_set(set_order(self))
    }

    fn pretty_to(&self, out: &mut Vec<char>) {
        let ghost start = out@;
        let items = set_items(self);
        if items.len() == 0 {
            out.push('{');
            out.push('}');
            assert(out@ =~= start + self.pretty());
            return;
        }
        out.push('{');
        out.push('\n');
        let mut i: usize = 0;
        while i < items.len()
            invariant
                i <= items@.len(),
                items@.len() > 0,
                out@ == start + seq!['{', '\n'] + crate::matcher::pretty_items(items@.take(i as int)),
            decreases items@.len() - i,
        {
            let item = printed_pretty_chars(&items[i]);
            push_indented(out, item.as_slice());
            out.push(',');
            out.push('\n');
            proof {
                assert(items@.take(i + 1).drop_last() =~= items@.take(i as int));
                assert(items@.take(i + 1).last() == items@[i as int]);
                assert(out@ =~= start + seq!['{', '\n'] + crate::matcher::pretty_items(items@.take(i + 1)));
            }
            i = i + 1;
        }
        out.push('}');
        assert(items@.take(items@.len() as int) =~= items@);
        assert(out@ =~= start + self.pretty());
    }
}

} // verus!
