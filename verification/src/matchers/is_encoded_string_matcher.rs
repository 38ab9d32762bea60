//! A matcher for byte sequences that are UTF-8 encoded strings an inner
//! matcher matches.

use vstd::prelude::*;
use core::marker::PhantomData;
use vstd::utf8::{decode_utf8, valid_utf8};
use crate::description::{is_text, shown, Description};
use crate::matcher::{join2, Container, Matcher, MatcherResult};
use crate::matchers::display_matcher::TextMatcher;
use crate::text::{decimal, push_all, push_decimal, push_str};

verus! {

/// How many bytes of the invalid sequence at the first invalid position of
/// `bytes` `String::from_utf8` reports, if it reports any.
pub uninterp spec fn utf8_error_len(bytes: Seq<u8>) -> Option<u8>;

/// `up_to` is the longest prefix of `bytes` that is valid UTF-8.
pub open spec fn valid_up_to(bytes: Seq<u8>, up_to: int) -> bool {
    &&& 0 <= up_to <= bytes.len()
    &&& valid_utf8(bytes.take(up_to))
    &&& forall|j: int| up_to < j <= bytes.len() ==> !valid_utf8(#[trigger] bytes.take(j))
}

/// Trusted: `String::from_utf8`. As std documents, it gives the decoded
/// string exactly when `bytes` is valid UTF-8; otherwise its error tells the
/// maximum index up to which the bytes are valid UTF-8 (`valid_up_to`) and
/// the length of the invalid sequence found there (`error_len`, none when
/// the input ended early). Which length it reports is left to the name
/// `utf8_error_len`.
#[verifier::external_body]
fn string_from_utf8(bytes: Vec<u8>) -> (r: Result<String, (usize, Option<u8>)>)
    ensures
        r is Ok <==> valid_utf8(bytes@),
        r matches Ok(s) ==> s@ == decode_utf8(bytes@),
        r matches Err(e) ==> valid_up_to(bytes@, e.0 as int) && e.1 == utf8_error_len(bytes@),
{
    match String::from_utf8(bytes) {
        Ok(s) => Ok(s),
        Err(e) => match e.utf8_error().error_len() {
            Some(n) => Err((e.utf8_error().valid_up_to(), Some(n as u8))),
            None => Err((e.utf8_error().valid_up_to(), None)),
        },
    }
}

/// What a UTF-8 decoding error says, given where the valid prefix ends and
/// the length of the invalid sequence there.
pub open spec fn utf8_error_text(up_to: nat, error_len: Option<u8>) -> Seq<char> {
    match error_len {
        Some(n) => "invalid utf-8 sequence of "@ + decimal(n as nat) + " bytes from index "@ + decimal(up_to),
        None => "incomplete utf-8 byte sequence from index "@ + decimal(up_to),
    }
}

/// A copy of the bytes.
fn copy_bytes(b: &[u8]) -> (v: Vec<u8>)
    ensures
        v@ == b@,
{
    let mut v: Vec<u8> = Vec::new();
    let mut i: usize = 0;
    while i < b.len()
        invariant
            i <= b@.len(),
            v@ == b@.take(i as int),
        decreases b@.len() - i,
    {
        v.push(b[i]);
        i = i + 1;
        assert(v@ =~= b@.take(i as int));
    }
    assert(b@.take(b@.len() as int) =~= b@);
    v
}

/// Matches a byte sequence that is the UTF-8 encoding of a string that
/// `inner` matches.
pub fn is_utf8_string<A, M>(inner: M) -> (m: IsEncodedStringMatcher<A, M>)
    ensures
        m.inner == inner,
{
    IsEncodedStringMatcher { inner, phantom: PhantomData }
}

/// Matches a UTF-8 encoded string that `inner` matches.
pub struct IsEncodedStringMatcher<A, M> {
    pub inner: M,
    pub phantom: PhantomData<A>,
}

impl<A: Container<Item = u8>, M: TextMatcher> Matcher for IsEncodedStringMatcher<A, M> {
    type ActualT = A;

    open spec fn accepts(&self, actual: &A) -> bool {
        valid_utf8(actual.elements()) && exists|s: String|
            s@ == decode_utf8(actual.elements()) && #[trigger] self.inner.accepts(&s)
    }

    open spec fn describes(&self, r: MatcherResult, d: Description) -> bool {
        exists|d1: Description|
            #[trigger] self.inner.describes(MatcherResult::Match, d1) && is_text(
                d,
                (match r {
                    MatcherResult::Match => "is a UTF-8 encoded string which "@,
                    MatcherResult::NoMatch => "is not a UTF-8 encoded string which "@,
                }) + shown(d1),
            )
    }

    open spec fn explains(&self, actual: &A, d: Description) -> bool {
        if valid_utf8(actual.elements()) {
            exists|s: String, e1: Description|
                s@ == decode_utf8(actual.elements()) && #[trigger] self.inner.explains(&s, e1) && is_text(
                    d,
                    "which is a UTF-8 encoded string "@ + shown(e1),
                )
        } else {
            exists|up_to: nat|
                #[trigger] valid_up_to(actual.elements(), up_to as int) && is_text(
                    d,
                    "which is not a UTF-8 encoded string: "@ + utf8_error_text(up_to, utf8_error_len(actual.elements())),
                )
        }
    }

    fn matches(&self, actual: &A) -> MatcherResult {
        let bytes = copy_bytes(actual.items());
        match string_from_utf8(bytes) {
            Ok(s) => {
                let r = self.inner.matches(&s);
                proof {
                    if !self.inner.accepts(&s) {
                        assert forall|t: String| t@ == decode_utf8(actual.elements()) implies !#[trigger] self.inner.accepts(&t) by {
                            self.inner.lemma_by_text(&s, &t);
                        }
                    }
                }
                r
            },
            Err(_) => MatcherResult::NoMatch,
        }
    }

    fn describe(&self, matcher_result: MatcherResult) -> Description {
        let d1 = self.inner.describe(MatcherResult::Match);
        let t1 = d1.to_chars();
        let v = match matcher_result {
            MatcherResult::Match => join2("is a UTF-8 encoded string which ", t1.as_slice()),
            MatcherResult::NoMatch => join2("is not a UTF-8 encoded string which ", t1.as_slice()),
        };
        assert(self.inner.describes(MatcherResult::Match, d1));
        Description::from_chars(v.as_slice())
    }

    fn explain_match(&self, actual: &A) -> Description {
        let bytes = copy_bytes(actual.items());
        match string_from_utf8(bytes) {
            Ok(s) => {
                let e1 = self.inner.explain_match(&s);
                let t1 = e1.to_chars();
                let v = join2("which is a UTF-8 encoded string ", t1.as_slice());
                assert(self.inner.explains(&s, e1));
                Description::from_chars(v.as_slice())
            },
            Err((up_to, error_len)) => {
                let mut v: Vec<char> = Vec::new();
                push_str(&mut v, "which is not a UTF-8 encoded string: ");
                match error_len {
                    Some(n) => {
                        push_str(&mut v, "invalid utf-8 sequence of ");
                        push_decimal(&mut v, n as usize);
                        push_str(&mut v, " bytes from index ");
                        push_decimal(&mut v, up_to);
                    },
                    None => {
                        push_str(&mut v, "incomplete utf-8 byte sequence from index ");
                        push_decimal(&mut v, up_to);
                    },
                }
                assert(v@ =~= "which is not a UTF-8 encoded string: "@ + utf8_error_text(up_to as nat, error_len));
                assert(valid_up_to(actual.elements(), up_to as int));
                Description::from_chars(v.as_slice())
            },
        }
    }
}

} // verus!
