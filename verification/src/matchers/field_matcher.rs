//! A matcher for one field of a struct or of an enum variant.

use vstd::prelude::*;
use core::marker::PhantomData;
use crate::description::{is_text, shown, Description};
use crate::internal::death_tests::{is_white_space, white_space};
use crate::matcher::{Matcher, MatcherResult, Printable};
use crate::text::{char_from, find_char, push_all, push_str};

verus! {

/// `f` reads a field: it can be called on every value and always gives the
/// same result for the same value.
pub open spec fn is_field_accessor<OuterT, InnerT, F: Fn(&OuterT) -> Option<&InnerT>>(f: F) -> bool {
    &&& forall|o: &OuterT| #[trigger] f.requires((o,))
    &&& forall|o: &OuterT, r1: Option<&InnerT>, r2: Option<&InnerT>|
        #[trigger] f.ensures((o,), r1) && #[trigger] f.ensures((o,), r2) ==> r1 == r2
}

/// The first of the pieces of `s` separated by `c`: what comes before the
/// first `c`, or all of `s`.
pub open spec fn first_piece(s: Seq<char>, c: char) -> Seq<char> {
    s.subrange(0, char_from(s, 0, c))
}

/// `s` without the white space at its end.
pub open spec fn trimmed_end(s: Seq<char>) -> Seq<char>
    decreases s.len(),
{
    if s.len() > 0 && is_white_space(s.last()) {
        trimmed_end(s.drop_last())
    } else {
        s
    }
}

/// The name of an enum variant in its printed form `printed`: what comes
/// before its fields, without trailing white space.
pub open spec fn variant_name(printed: Seq<char>) -> Seq<char> {
    trimmed_end(first_piece(first_piece(printed, '('), '{'))
}

/// The description of a field matcher for the field `path` whose inner
/// matcher is described by `inner`.
pub open spec fn field_text(path: Seq<char>, inner: Seq<char>) -> Seq<char> {
    "has field `"@ + path + "`, which "@ + inner
}

/// The explanation of a field matcher for the field `path` whose inner
/// matcher explains itself by `inner`.
pub open spec fn has_field_text(path: Seq<char>, inner: Seq<char>) -> Seq<char> {
    "which has field `"@ + path + "`, "@ + inner
}

/// The explanation of a field matcher for a value of another enum variant,
/// printed as `printed`.
pub open spec fn wrong_variant_text(printed: Seq<char>) -> Seq<char> {
    "which has the wrong enum variant `"@ + variant_name(printed) + "`"@
}

/// The characters of `s` up to the first `c`.
fn first_piece_chars(s: &[char], c: char) -> (r: Vec<char>)
    ensures
        r@ == first_piece(s@, c),
{
    let e = find_char(s, c);
    let mut r: Vec<char> = Vec::new();
    let mut i: usize = 0;
    while i < e
        invariant
            e <= s@.len(),
            e == char_from(s@, 0, c),
            i <= e,
            r@ == s@.subrange(0, i as int),
        decreases e - i,
    {
        r.push(s[i]);
        i = i + 1;
        assert(r@ =~= s@.subrange(0, i as int));
    }
    r
}

/// `trimmed_end` of a prefix that ends in white space is that of the
/// shorter prefix.
proof fn lemma_trimmed_end_take(s: Seq<char>, j: int)
    requires
        0 < j <= s.len(),
        is_white_space(s[j - 1]),
    ensures
        trimmed_end(s.take(j)) == trimmed_end(s.take(j - 1)),
{
    assert(s.take(j).drop_last() =~= s.take(j - 1));
}

/// The characters of `s` without the white space at its end.
fn trim_end_chars(s: &[char]) -> (r: Vec<char>)
    ensures
        r@ == trimmed_end(s@),
{
    let mut j: usize = s.len();
    assert(s@.take(j as int) =~= s@);
    while j > 0 && white_space(s[j - 1])
        invariant
            j <= s@.len(),
            trimmed_end(s@.take(j as int)) == trimmed_end(s@),
        decreases j,
    {
        proof {
            lemma_trimmed_end_take(s@, j as int);
        }
        j = j - 1;
    }
    let mut r: Vec<char> = Vec::new();
    let mut i: usize = 0;
    while i < j
        invariant
            j <= s@.len(),
            i <= j,
            r@ == s@.subrange(0, i as int),
        decreases j - i,
    {
        r.push(s[i]);
        i = i + 1;
        assert(r@ =~= s@.subrange(0, i as int));
    }
    assert(r@ =~= s@.take(j as int));
    r
}

/// Matches a value whose field, read by `field_accessor`, `inner` matches;
/// `field_path` names the field in descriptions.
pub fn field_matcher<OuterT, InnerT, F: Fn(&OuterT) -> Option<&InnerT>, InnerMatcher>(
    field_accessor: F,
    field_path: &'static str,
    inner: InnerMatcher,
) -> (m: FieldMatcher<OuterT, InnerT, F, InnerMatcher>)
    requires
        is_field_accessor(field_accessor),
    ensures
        m.accessor() == field_accessor,
        m.path() == field_path@,
        m.inner_matcher() == inner,
{
    FieldMatcher { field_accessor, field_path, inner, phantom: PhantomData }
}

/// Matches a value whose field, read by its field accessor, the inner matcher
/// matches.
#[verifier::reject_recursive_types(OuterT)]
#[verifier::reject_recursive_types(InnerT)]
pub struct FieldMatcher<OuterT, InnerT, F: Fn(&OuterT) -> Option<&InnerT>, InnerMatcher> {
    field_accessor: F,
    field_path: &'static str,
    inner: InnerMatcher,
    phantom: PhantomData<(OuterT, InnerT)>,
}

impl<OuterT, InnerT, F: Fn(&OuterT) -> Option<&InnerT>, InnerMatcher> FieldMatcher<
    OuterT,
    InnerT,
    F,
    InnerMatcher,
> {
    #[verifier::type_invariant]
    spec fn reads_a_field(self) -> bool {
        is_field_accessor(self.field_accessor)
    }

    /// The function that reads the field.
    pub closed spec fn accessor(self) -> F {
        self.field_accessor
    }

    /// The name of the field.
    pub closed spec fn path(self) -> Seq<char> {
        self.field_path@
    }

    /// The matcher for the field's value.
    pub closed spec fn inner_matcher(self) -> InnerMatcher {
        self.inner
    }

    /// What the field accessor gives for `actual`.
    fn read<'a>(&self, actual: &'a OuterT) -> (r: Option<&'a InnerT>)
        ensures
            self.accessor().ensures((actual,), r),
            forall|r2: Option<&InnerT>| #[trigger] self.accessor().ensures((actual,), r2) ==> r2 == r,
    {
        proof {
            use_type_invariant(self);
        }
        let r = (self.field_accessor)(actual);
        r
    }

    /// The characters of `"which has field `path`, "` followed by `inner`.
    fn has_field_chars(&self, inner: &[char]) -> (v: Vec<char>)
        ensures
            v@ == has_field_text(self.path(), inner@),
    {
        let mut out: Vec<char> = Vec::new();
        push_str(&mut out, "which has field `");
        push_str(&mut out, self.field_path);
        push_str(&mut out, "`, ");
        push_all(&mut out, inner);
        out
    }
}

impl<
    OuterT: Printable,
    InnerT,
    F: Fn(&OuterT) -> Option<&InnerT>,
    InnerMatcher: Matcher<ActualT = InnerT>,
> Matcher for FieldMatcher<OuterT, InnerT, F, InnerMatcher> {
    type ActualT = OuterT;

    open spec fn accepts(&self, actual: &OuterT) -> bool {
        forall|r: Option<&InnerT>|
            #[trigger] self.accessor().ensures((actual,), r) ==> (r matches Some(v)
                && self.inner_matcher().accepts(v))
    }

    open spec fn describes(&self, r: MatcherResult, d: Description) -> bool {
        exists|d1: Description|
            #[trigger] self.inner_matcher().describes(r, d1) && is_text(
                d,
                field_text(self.path(), shown(d1)),
            )
    }

    open spec fn explains(&self, actual: &OuterT, d: Description) -> bool {
        forall|r: Option<&InnerT>|
            #[trigger] self.accessor().ensures((actual,), r) ==> match r {
                Some(v) => exists|e1: Description|
                    #[trigger] self.inner_matcher().explains(v, e1) && is_text(
                        d,
                        has_field_text(self.path(), shown(e1)),
                    ),
                None => is_text(d, wrong_variant_text(actual.printed())),
            }
    }

    fn matches(&self, actual: &OuterT) -> MatcherResult {
        match self.read(actual) {
            Some(v) => self.inner.matches(v),
            None => MatcherResult::NoMatch,
        }
    }

    fn describe(&self, matcher_result: MatcherResult) -> Description {
        let d1 = self.inner.describe(matcher_result);
        let t1 = d1.to_chars();
        let mut out: Vec<char> = Vec::new();
        push_str(&mut out, "has field `");
        push_str(&mut out, self.field_path);
        push_str(&mut out, "`, which ");
        push_all(&mut out, t1.as_slice());
        assert(self.inner_matcher().describes(matcher_result, d1));
        Description::from_chars(out.as_slice())
    }

    fn explain_match(&self, actual: &OuterT) -> Description {
        match self.read(actual) {
            Some(v) => {
                let e1 = self.inner.explain_match(v);
                let t1 = e1.to_chars();
                let out = self.has_field_chars(t1.as_slice());
                assert(self.inner_matcher().explains(v, e1));
                Description::from_chars(out.as_slice())
            },
            None => {
                let mut p: Vec<char> = Vec::new();
                actual.print_to(&mut p);
                let a = first_piece_chars(p.as_slice(), '(');
                let b = first_piece_chars(a.as_slice(), '{');
                let n = trim_end_chars(b.as_slice());
                let mut out: Vec<char> = Vec::new();
                push_str(&mut out, "which has the wrong enum variant `");
                push_all(&mut out, n.as_slice());
                push_str(&mut out, "`");
                Description::from_chars(out.as_slice())
            },
        }
    }
}


} // verus!
