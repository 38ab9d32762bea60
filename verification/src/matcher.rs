//! The components required to implement matchers: the result of a match,
//! the `Matcher` interface, and the printing, equality and ordering of the
//! values that matchers compare.

use vstd::prelude::*;
use crate::description::{is_text, one_line, Description};
use crate::matcher_support::edit_distance::chars_equal;
use crate::text::{chars_of, int_text, push_all, push_int, push_str};

verus! {

/// The result of applying a [`Matcher`] on an actual value.
#[derive(Debug, Clone, Copy, PartialEq, Eq, Structural)]
pub enum MatcherResult {
    /// The actual value matches according to the [`Matcher`] definition.
    Match,
    /// The actual value does not match according to the [`Matcher`] definition.
    NoMatch,
}

/// `Match` for `true`, `NoMatch` for `false`.
pub open spec fn result_of(b: bool) -> MatcherResult {
    if b {
        MatcherResult::Match
    } else {
        MatcherResult::NoMatch
    }
}

/// `Match` for `true`, `NoMatch` for `false`.
impl From<bool> for MatcherResult {
    fn from(b: bool) -> (r: MatcherResult) {
        if b {
            MatcherResult::Match
        } else {
            MatcherResult::NoMatch
        }
    }
}

impl vstd::std_specs::convert::FromSpecImpl<bool> for MatcherResult {
    open spec fn obeys_from_spec() -> bool {
        true
    }

    open spec fn from_spec(b: bool) -> MatcherResult {
        result_of(b)
    }
}

/// `true` for `Match`, `false` for `NoMatch`.
impl From<MatcherResult> for bool {
    fn from(r: MatcherResult) -> (b: bool) {
        match r {
            MatcherResult::Match => true,
            MatcherResult::NoMatch => false,
        }
    }
}

impl vstd::std_specs::convert::FromSpecImpl<MatcherResult> for bool {
    open spec fn obeys_from_spec() -> bool {
        true
    }

    open spec fn from_spec(r: MatcherResult) -> bool {
        r == MatcherResult::Match
    }
}

impl MatcherResult {
    /// `Match` for `true`, `NoMatch` for `false`.
    pub fn from_bool(b: bool) -> (r: MatcherResult)
        ensures
            r == result_of(b),
    {
        if b {
            MatcherResult::Match
        } else {
            MatcherResult::NoMatch
        }
    }

    /// Returns `true` if `self` is [`MatcherResult::Match`], otherwise
    /// `false`.
    pub fn is_match(self) -> (b: bool)
        ensures
            b == (self == MatcherResult::Match),
    {
        match self {
            MatcherResult::Match => true,
            MatcherResult::NoMatch => false,
        }
    }

    /// Returns `true` if `self` is [`MatcherResult::NoMatch`], otherwise
    /// `false`.
    pub fn is_no_match(self) -> (b: bool)
        ensures
            b == (self == MatcherResult::NoMatch),
    {
        match self {
            MatcherResult::Match => false,
            MatcherResult::NoMatch => true,
        }
    }
}

/// An interface for checking an arbitrary condition on a datum.
///
/// `accepts` says which values match; `describes` and `explains` say what
/// the description of the matcher, and the explanation of a match, are.
pub trait Matcher {
    /// The type against which this matcher matches.
    type ActualT: ?Sized;

    /// The values that match. Its default, for implementations that do not
    /// state it, is no value.
    open spec fn accepts(&self, actual: &Self::ActualT) -> bool {
        false
    }

    /// `d` is the description of this matcher (or, for `NoMatch`, of its
    /// negation). Its default holds of no description.
    open spec fn describes(&self, matcher_result: MatcherResult, d: Description) -> bool {
        false
    }

    /// `d` explains why `actual` matches or not. Its default holds of no
    /// description.
    open spec fn explains(&self, actual: &Self::ActualT, d: Description) -> bool {
        false
    }

    /// Returns whether the condition matches the datum `actual`.
    fn matches(&self, actual: &Self::ActualT) -> (r: MatcherResult)
        ensures
            r == result_of(self.accepts(actual)),
    ;

    /// Returns a description of `self` or a negative description if
    /// `matcher_result` is `NoMatch`: a verb phrase whose subject is the
    /// value being matched.
    fn describe(&self, matcher_result: MatcherResult) -> (d: Description)
        ensures
            self.describes(matcher_result, d),
    ;

    /// A relative clause ("which ...") describing how `actual` matches or
    /// does not match.
    fn explain_match(&self, actual: &Self::ActualT) -> (d: Description)
        ensures
            self.explains(actual, d),
    ;
}

/// A reference to a matcher matches what the matcher matches.
impl<'a, M: Matcher> Matcher for &'a M {
    type ActualT = M::ActualT;

    open spec fn accepts(&self, actual: &M::ActualT) -> bool {
        (**self).accepts(actual)
    }

    open spec fn describes(&self, matcher_result: MatcherResult, d: Description) -> bool {
        (**self).describes(matcher_result, d)
    }

    open spec fn explains(&self, actual: &M::ActualT, d: Description) -> bool {
        (**self).explains(actual, d)
    }

    fn matches(&self, actual: &M::ActualT) -> MatcherResult {
        (**self).matches(actual)
    }

    fn describe(&self, matcher_result: MatcherResult) -> Description {
        (**self).describe(matcher_result)
    }

    fn explain_match(&self, actual: &M::ActualT) -> Description {
        (**self).explain_match(actual)
    }
}

/// The explanation that a matcher whose one-line description for the
/// result on `actual` is `text` gives by default.
pub open spec fn which_text(text: Seq<char>) -> Seq<char> {
    seq!['w', 'h', 'i', 'c', 'h', ' '] + text
}

/// The default explanation: `which` followed by the description.
pub fn which(text: &[char]) -> (d: Description)
    ensures
        is_text(d, which_text(text@)),
{
    let mut out: Vec<char> = Vec::new();
    push_str(&mut out, "which ");
    push_all(&mut out, text);
    proof {
        reveal_strlit("which ");
        assert(out@ =~= which_text(text@));
    }
    Description::from_chars(out.as_slice())
}

/// What `{:?}` prints for a string.
pub uninterp spec fn str_debug(s: Seq<char>) -> Seq<char>;

/// What `{:?}` prints for a character.
pub uninterp spec fn char_debug(c: char) -> Seq<char>;

/// Trusted: `<str as Debug>::fmt`, through `format!`. As std documents, it
/// writes the string between double quotes with every character escaped by
/// `char::escape_debug`, so that no line break is left raw. Which escape each
/// character gets is left to the name `str_debug`.
#[verifier::external_body]
fn debug_of_str(s: &str) -> (r: String)
    ensures
        r@ == str_debug(s@),
        r@.len() >= 2,
        r@[0] == '"',
        r@.last() == '"',
        one_line(r@),
{
    format!("{:?}", s)
}

/// Trusted: `<char as Debug>::fmt`, through `format!`. As std documents, it
/// writes the character between single quotes, escaped by
/// `char::escape_debug`. Which escape it gets is left to the name
/// `char_debug`.
#[verifier::external_body]
fn debug_of_char(c: char) -> (r: String)
    ensures
        r@ == char_debug(c),
        r@.len() >= 3,
        r@[0] == '\'',
        r@.last() == '\'',
        one_line(r@),
{
    format!("{:?}", c)
}

/// A value with a printed form: what `{:?}` prints for it.
pub trait Printable {
    /// The printed form. Its default, for implementations that do not
    /// state it, is the empty text.
    open spec fn printed(&self) -> Seq<char> {
        Seq::empty()
    }

    /// Appends the printed form to `out`.
    fn print_to(&self, out: &mut Vec<char>)
        ensures
            final(out)@ == old(out)@ + self.printed(),
    ;

    /// The pretty-printed form: what `{:#?}` prints. Its default is the
    /// empty text.
    open spec fn pretty(&self) -> Seq<char> {
        Seq::empty()
    }

    /// Appends the pretty-printed form to `out`.
    fn pretty_to(&self, out: &mut Vec<char>)
        ensures
            final(out)@ == old(out)@ + self.pretty(),
    ;
}

/// Equality between a value of this type and a value of type `T`.
pub trait EqualTo<T: ?Sized> {
    /// Whether `self` equals `other`. Its default, for implementations that
    /// do not state it, is `false`.
    open spec fn equal_to(&self, other: &T) -> bool {
        false
    }

    /// Whether `self` equals `other`.
    fn is_equal_to(&self, other: &T) -> (r: bool)
        ensures
            r == self.equal_to(other),
    ;
}

/// A strict order between a value of this type and a value of type `T`.
pub trait Below<T: ?Sized> {
    /// Whether `self` comes strictly before `other`. Its default, for
    /// implementations that do not state it, is `false`.
    open spec fn below(&self, other: &T) -> bool {
        false
    }

    /// Whether `self` comes strictly before `other`.
    fn is_below(&self, other: &T) -> (r: bool)
        ensures
            r == self.below(other),
    ;
}

/// `a` comes strictly before `b` in the lexicographic order of characters
/// (which is the order of their UTF-8 encodings).
pub open spec fn chars_below(a: Seq<char>, b: Seq<char>) -> bool
    decreases a.len(),
{
    if b.len() == 0 {
        false
    } else if a.len() == 0 {
        true
    } else if a[0] != b[0] {
        (a[0] as u32) < (b[0] as u32)
    } else {
        chars_below(a.drop_first(), b.drop_first())
    }
}

/// Texts are ordered as Rust orders strings: at the first place where they
/// differ, by the code points of the characters there.
pub proof fn law_text_order_at_first_difference(a: Seq<char>, b: Seq<char>, i: int)
    requires
        0 <= i < a.len(),
        i < b.len(),
        a.take(i) == b.take(i),
        a[i] != b[i],
    ensures
        chars_below(a, b) == ((a[i] as u32) < (b[i] as u32)),
    decreases i,
{
    if i > 0 {
        assert(a[0] == a.take(i)[0] && b[0] == b.take(i)[0]);
        assert(a.drop_first().take(i - 1) =~= a.take(i).drop_first());
        assert(b.drop_first().take(i - 1) =~= b.take(i).drop_first());
        law_text_order_at_first_difference(a.drop_first(), b.drop_first(), i - 1);
    }
}

/// A text comes before every longer text that it begins, and after or
/// equal to none of them: no text comes before one of its prefixes
/// (itself included).
pub proof fn law_text_order_of_prefixes(a: Seq<char>, b: Seq<char>)
    ensures
        a.len() < b.len() && a == b.take(a.len() as int) ==> chars_below(a, b),
        b.len() <= a.len() && b == a.take(b.len() as int) ==> !chars_below(a, b),
    decreases a.len(),
{
    if a.len() > 0 && b.len() > 0 {
        if a.len() < b.len() && a == b.take(a.len() as int) {
            assert(a[0] == b[0]);
            assert(a.drop_first() =~= b.drop_first().take(a.len() - 1));
        }
        if b.len() <= a.len() && b == a.take(b.len() as int) {
            assert(a[0] == b[0]);
            assert(b.drop_first() =~= a.drop_first().take(b.len() - 1));
        }
        law_text_order_of_prefixes(a.drop_first(), b.drop_first());
    }
}

/// Whether `a` comes strictly before `b` in the lexicographic order.
pub fn is_chars_below(a: &[char], b: &[char]) -> (r: bool)
    ensures
        r == chars_below(a@, b@),
{
    let mut i: usize = 0;
    assert(a@.skip(0) =~= a@);
    assert(b@.skip(0) =~= b@);
    while i < a.len() && i < b.len()
        invariant
            i <= a@.len(),
            i <= b@.len(),
            forall|j: int| 0 <= j < i ==> a@[j] == b@[j],
            chars_below(a@, b@) == chars_below(a@.skip(i as int), b@.skip(i as int)),
        decreases a@.len() - i,
    {
        if a[i] != b[i] {
            let r = (a[i] as u32) < (b[i] as u32);
            assert(a@.skip(i as int)[0] == a@[i as int]);
            assert(b@.skip(i as int)[0] == b@[i as int]);
            return r;
        }
        proof {
            assert(a@.skip(i as int).drop_first() =~= a@.skip(i + 1));
            assert(b@.skip(i as int).drop_first() =~= b@.skip(i + 1));
        }
        i = i + 1;
    }
    i < b.len()
}

impl Printable for i32 {
    open spec fn printed(&self) -> Seq<char> {
        int_text(*self as int)
    }

    fn print_to(&self, out: &mut Vec<char>) {
        push_int(out, *self as i128);
    }

    open spec fn pretty(&self) -> Seq<char> {
        self.printed()
    }

    fn pretty_to(&self, out: &mut Vec<char>) {
        self.print_to(out);
    }
}

impl Printable for i64 {
    open spec fn printed(&self) -> Seq<char> {
        int_text(*self as int)
    }

    fn print_to(&self, out: &mut Vec<char>) {
        push_int(out, *self as i128);
    }

    open spec fn pretty(&self) -> Seq<char> {
        self.printed()
    }

    fn pretty_to(&self, out: &mut Vec<char>) {
        self.print_to(out);
    }
}

impl Printable for u32 {
    open spec fn printed(&self) -> Seq<char> {
        int_text(*self as int)
    }

    fn print_to(&self, out: &mut Vec<char>) {
        push_int(out, *self as i128);
    }

    open spec fn pretty(&self) -> Seq<char> {
        self.printed()
    }

    fn pretty_to(&self, out: &mut Vec<char>) {
        self.print_to(out);
    }
}

impl Printable for u64 {
    open spec fn printed(&self) -> Seq<char> {
        int_text(*self as int)
    }

    fn print_to(&self, out: &mut Vec<char>) {
        push_int(out, *self as i128);
    }

    open spec fn pretty(&self) -> Seq<char> {
        self.printed()
    }

    fn pretty_to(&self, out: &mut Vec<char>) {
        self.print_to(out);
    }
}

impl Printable for usize {
    open spec fn printed(&self) -> Seq<char> {
        int_text(*self as int)
    }

    fn print_to(&self, out: &mut Vec<char>) {
        push_int(out, *self as i128);
    }

    open spec fn pretty(&self) -> Seq<char> {
        self.printed()
    }

    fn pretty_to(&self, out: &mut Vec<char>) {
        self.print_to(out);
    }
}

impl Printable for bool {
    open spec fn printed(&self) -> Seq<char> {
        if *self {
            seq!['t', 'r', 'u', 'e']
        } else {
            seq!['f', 'a', 'l', 's', 'e']
        }
    }

    fn print_to(&self, out: &mut Vec<char>) {
        let ghost start = out@;
        if *self {
            push_str(out, "true");
            proof {
                reveal_strlit("true");
                assert(out@ =~= start + self.printed());
            }
        } else {
            push_str(out, "false");
            proof {
                reveal_strlit("false");
                assert(out@ =~= start + self.printed());
            }
        }
    }

    open spec fn pretty(&self) -> Seq<char> {
        self.printed()
    }

    fn pretty_to(&self, out: &mut Vec<char>) {
        self.print_to(out);
    }
}

impl Printable for char {
    open spec fn printed(&self) -> Seq<char> {
        char_debug(*self)
    }

    fn print_to(&self, out: &mut Vec<char>) {
        let s = debug_of_char(*self);
        push_str(out, s.as_str());
    }

    open spec fn pretty(&self) -> Seq<char> {
        self.printed()
    }

    fn pretty_to(&self, out: &mut Vec<char>) {
        self.print_to(out);
    }
}

impl Printable for str {
    open spec fn printed(&self) -> Seq<char> {
        str_debug(self@)
    }

    fn print_to(&self, out: &mut Vec<char>) {
        let s = debug_of_str(self);
        push_str(out, s.as_str());
    }

    open spec fn pretty(&self) -> Seq<char> {
        self.printed()
    }

    fn pretty_to(&self, out: &mut Vec<char>) {
        self.print_to(out);
    }
}

impl<'a, T: Printable + ?Sized> Printable for &'a T {
    open spec fn printed(&self) -> Seq<char> {
        (**self).printed()
    }

    fn print_to(&self, out: &mut Vec<char>) {
        (**self).print_to(out);
    }

    open spec fn pretty(&self) -> Seq<char> {
        (**self).pretty()
    }

    fn pretty_to(&self, out: &mut Vec<char>) {
        (**self).pretty_to(out);
    }
}

impl<T: Printable> Printable for Box<T> {
    open spec fn printed(&self) -> Seq<char> {
        (**self).printed()
    }

    fn print_to(&self, out: &mut Vec<char>) {
        (**self).print_to(out);
    }

    open spec fn pretty(&self) -> Seq<char> {
        (**self).pretty()
    }

    fn pretty_to(&self, out: &mut Vec<char>) {
        (**self).pretty_to(out);
    }
}

impl Printable for String {
    open spec fn printed(&self) -> Seq<char> {
        str_debug(self@)
    }

    fn print_to(&self, out: &mut Vec<char>) {
        let s = debug_of_str(self.as_str());
        push_str(out, s.as_str());
    }

    open spec fn pretty(&self) -> Seq<char> {
        self.printed()
    }

    fn pretty_to(&self, out: &mut Vec<char>) {
        self.print_to(out);
    }
}

/// The printed forms of `items`, separated by `", "`.
pub open spec fn printed_items<T: Printable>(items: Seq<T>) -> Seq<char>
    decreases items.len(),
{
    if items.len() == 0 {
        Seq::empty()
    } else if items.len() == 1 {
        items[0].printed()
    } else {
        printed_items(items.drop_last()) + seq![',', ' '] + items.last().printed()
    }
}

/// The printed form of a list: its items between brackets.
pub open spec fn printed_list<T: Printable>(items: Seq<T>) -> Seq<char> {
    seq!['['] + printed_items(items) + seq![']']
}

/// Appends the printed forms of `items`, separated by `", "`.
pub fn print_items<T: Printable>(items: &[T], out: &mut Vec<char>)
    ensures
        final(out)@ == old(out)@ + printed_items(items@),
{
    let ghost start = out@;
    let mut i: usize = 0;
    while i < items.len()
        invariant
            i <= items@.len(),
            out@ == start + printed_items(items@.take(i as int)),
        decreases items@.len() - i,
    {
        let ghost before = out@;
        if i > 0 {
            out.push(',');
            out.push(' ');
        }
        items[i].print_to(out);
        proof {
            let t = items@.take(i + 1);
            assert(t.drop_last() =~= items@.take(i as int));
            assert(t.last() == items@[i as int]);
            if i == 0 {
                assert(out@ =~= start + printed_items(t));
            } else {
                assert(out@ =~= start + printed_items(t));
            }
        }
        i = i + 1;
    }
    assert(items@.take(items@.len() as int) =~= items@);
}

/// `s` with four spaces at the start of each of its lines.
pub open spec fn indented(s: Seq<char>) -> Seq<char>
    decreases s.len(),
{
    if s.len() == 0 {
        seq![' ', ' ', ' ', ' ']
    } else {
        indented(s.drop_last()) + if s.last() == '\n' {
            seq!['\n', ' ', ' ', ' ', ' ']
        } else {
            seq![s.last()]
        }
    }
}

/// Appends `s` with four spaces at the start of each of its lines.
pub fn push_indented(out: &mut Vec<char>, s: &[char])
    ensures
        final(out)@ == old(out)@ + indented(s@),
{
    let ghost start = out@;
    push_str(out, "    ");
    proof {
        reveal_strlit("    ");
        assert(s@.take(0) =~= Seq::<char>::empty());
        assert(out@ =~= start + indented(s@.take(0)));
    }
    let mut i: usize = 0;
    while i < s.len()
        invariant
            i <= s@.len(),
            out@ == start + indented(s@.take(i as int)),
        decreases s@.len() - i,
    {
        if s[i] == '\n' {
            push_str(out, "\n    ");
            proof {
                reveal_strlit("\n    ");
            }
        } else {
            out.push(s[i]);
        }
        proof {
            assert(s@.take(i + 1).drop_last() =~= s@.take(i as int));
            assert(s@.take(i + 1).last() == s@[i as int]);
            assert(out@ =~= start + indented(s@.take(i + 1)));
        }
        i = i + 1;
    }
    assert(s@.take(s@.len() as int) =~= s@);
}

/// The pretty-printed forms of `items`, each indented and followed by a
/// comma and a line break.
pub open spec fn pretty_items<T: Printable>(items: Seq<T>) -> Seq<char>
    decreases items.len(),
{
    if items.len() == 0 {
        Seq::empty()
    } else {
        pretty_items(items.drop_last()) + indented(items.last().pretty()) + seq![',', '\n']
    }
}

/// The pretty-printed form of a list.
pub open spec fn pretty_list<T: Printable>(items: Seq<T>) -> Seq<char> {
    if items.len() == 0 {
        seq!['[', ']']
    } else {
        seq!['[', '\n'] + pretty_items(items) + seq![']']
    }
}

/// Appends the pretty-printed form of a list.
pub fn pretty_print_list<T: Printable>(items: &[T], out: &mut Vec<char>)
    ensures
        final(out)@ == old(out)@ + pretty_list(items@),
{
    let ghost start = out@;
    if items.len() == 0 {
        out.push('[');
        out.push(']');
        assert(out@ =~= start + pretty_list(items@));
        return;
    }
    out.push('[');
    out.push('\n');
    let mut i: usize = 0;
    while i < items.len()
        invariant
            i <= items@.len(),
            items@.len() > 0,
            out@ == start + seq!['[', '\n'] + pretty_items(items@.take(i as int)),
        decreases items@.len() - i,
    {
        let item = printed_pretty_chars(&items[i]);
        push_indented(out, item.as_slice());
        out.push(',');
        out.push('\n');
        proof {
            assert(items@.take(i + 1).drop_last() =~= items@.take(i as int));
            assert(items@.take(i + 1).last() == items@[i as int]);
            assert(out@ =~= start + seq!['[', '\n'] + pretty_items(items@.take(i + 1)));
        }
        i = i + 1;
    }
    out.push(']');
    assert(items@.take(items@.len() as int) =~= items@);
    assert(out@ =~= start + pretty_list(items@));
}

/// The pretty-printed form of a value, as characters.
pub fn printed_pretty_chars<T: Printable + ?Sized>(value: &T) -> (r: Vec<char>)
    ensures
        r@ == value.pretty(),
{
    let mut out: Vec<char> = Vec::new();
    value.pretty_to(&mut out);
    assert(out@ =~= value.pretty());
    out
}

impl<T: Printable> Printable for Vec<T> {
    open spec fn printed(&self) -> Seq<char> {
        printed_list(self@)
    }

    fn print_to(&self, out: &mut Vec<char>) {
        let ghost start = out@;
        out.push('[');
        print_items(self.as_slice(), out);
        out.push(']');
        assert(out@ =~= start + printed_list(self@));
    }

    open spec fn pretty(&self) -> Seq<char> {
        pretty_list(self@)
    }

    fn pretty_to(&self, out: &mut Vec<char>) {
        pretty_print_list(self.as_slice(), out);
    }
}

impl<T: Printable, const N: usize> Printable for [T; N] {
    open spec fn printed(&self) -> Seq<char> {
        printed_list(self@)
    }

    fn print_to(&self, out: &mut Vec<char>) {
        let ghost start = out@;
        out.push('[');
        print_items(self.as_slice(), out);
        out.push(']');
        assert(out@ =~= start + printed_list(self@));
    }

    open spec fn pretty(&self) -> Seq<char> {
        pretty_list(self@)
    }

    fn pretty_to(&self, out: &mut Vec<char>) {
        pretty_print_list(self.as_slice(), out);
    }
}

impl<T: Printable> Printable for Option<T> {
    open spec fn printed(&self) -> Seq<char> {
        match self {
            Some(v) => seq!['S', 'o', 'm', 'e', '('] + v.printed() + seq![')'],
            None => seq!['N', 'o', 'n', 'e'],
        }
    }

    fn print_to(&self, out: &mut Vec<char>) {
        let ghost start = out@;
        match self {
            Some(v) => {
                push_str(out, "Some(");
                v.print_to(out);
                out.push(')');
                proof {
                    reveal_strlit("Some(");
                    assert(out@ =~= start + self.printed());
                }
            },
            None => {
                push_str(out, "None");
                proof {
                    reveal_strlit("None");
                    assert(out@ =~= start + self.printed());
                }
            },
        }
    }

    open spec fn pretty(&self) -> Seq<char> {
        match self {
            Some(v) => seq!['S', 'o', 'm', 'e', '(', '\n'] + indented(v.pretty()) + seq![',', '\n', ')'],
            None => seq!['N', 'o', 'n', 'e'],
        }
    }

    fn pretty_to(&self, out: &mut Vec<char>) {
        let ghost start = out@;
        match self {
            Some(v) => {
                push_str(out, "Some(\n");
                let inner = printed_pretty_chars(v);
                push_indented(out, inner.as_slice());
                out.push(',');
                out.push('\n');
                out.push(')');
                proof {
                    reveal_strlit("Some(\n");
                    assert(out@ =~= start + self.pretty());
                }
            },
            None => {
                push_str(out, "None");
                proof {
                    reveal_strlit("None");
                    assert(out@ =~= start + self.pretty());
                }
            },
        }
    }
}

impl<T: Printable, E: Printable> Printable for Result<T, E> {
    open spec fn printed(&self) -> Seq<char> {
        match self {
            Ok(v) => seq!['O', 'k', '('] + v.printed() + seq![')'],
            Err(e) => seq!['E', 'r', 'r', '('] + e.printed() + seq![')'],
        }
    }

    fn print_to(&self, out: &mut Vec<char>) {
        let ghost start = out@;
        match self {
            Ok(v) => {
                push_str(out, "Ok(");
                v.print_to(out);
                out.push(')');
                proof {
                    reveal_strlit("Ok(");
                    assert(out@ =~= start + self.printed());
                }
            },
            Err(e) => {
                push_str(out, "Err(");
                e.print_to(out);
                out.push(')');
                proof {
                    reveal_strlit("Err(");
                    assert(out@ =~= start + self.printed());
                }
            },
        }
    }

    open spec fn pretty(&self) -> Seq<char> {
        match self {
            Ok(v) => seq!['O', 'k', '(', '\n'] + indented(v.pretty()) + seq![',', '\n', ')'],
            Err(e) => seq!['E', 'r', 'r', '(', '\n'] + indented(e.pretty()) + seq![',', '\n', ')'],
        }
    }

    fn pretty_to(&self, out: &mut Vec<char>) {
        let ghost start = out@;
        match self {
            Ok(v) => {
                push_str(out, "Ok(\n");
                let inner = printed_pretty_chars(v);
                push_indented(out, inner.as_slice());
                out.push(',');
                out.push('\n');
                out.push(')');
                proof {
                    reveal_strlit("Ok(\n");
                    assert(out@ =~= start + self.pretty());
                }
            },
            Err(e) => {
                push_str(out, "Err(\n");
                let inner = printed_pretty_chars(e);
                push_indented(out, inner.as_slice());
                out.push(',');
                out.push('\n');
                out.push(')');
                proof {
                    reveal_strlit("Err(\n");
                    assert(out@ =~= start + self.pretty());
                }
            },
        }
    }
}

impl EqualTo<i32> for i32 {
    open spec fn equal_to(&self, other: &i32) -> bool {
        *self == *other
    }

    fn is_equal_to(&self, other: &i32) -> bool {
        *self == *other
    }
}

impl EqualTo<i64> for i64 {
    open spec fn equal_to(&self, other: &i64) -> bool {
        *self == *other
    }

    fn is_equal_to(&self, other: &i64) -> bool {
        *self == *other
    }
}

impl EqualTo<u32> for u32 {
    open spec fn equal_to(&self, other: &u32) -> bool {
        *self == *other
    }

    fn is_equal_to(&self, other: &u32) -> bool {
        *self == *other
    }
}

impl EqualTo<u64> for u64 {
    open spec fn equal_to(&self, other: &u64) -> bool {
        *self == *other
    }

    fn is_equal_to(&self, other: &u64) -> bool {
        *self == *other
    }
}

impl EqualTo<usize> for usize {
    open spec fn equal_to(&self, other: &usize) -> bool {
        *self == *other
    }

    fn is_equal_to(&self, other: &usize) -> bool {
        *self == *other
    }
}

impl EqualTo<bool> for bool {
    open spec fn equal_to(&self, other: &bool) -> bool {
        *self == *other
    }

    fn is_equal_to(&self, other: &bool) -> bool {
        *self == *other
    }
}

impl EqualTo<char> for char {
    open spec fn equal_to(&self, other: &char) -> bool {
        *self == *other
    }

    fn is_equal_to(&self, other: &char) -> bool {
        *self == *other
    }
}

/// Whether two strings hold the same characters.
pub fn same_text(a: &str, b: &str) -> (r: bool)
    ensures
        r == (a@ == b@),
{
    let x = chars_of(a);
    let y = chars_of(b);
    chars_equal(x.as_slice(), y.as_slice())
}

impl<'a, 'b> EqualTo<&'b str> for &'a str {
    open spec fn equal_to(&self, other: &&'b str) -> bool {
        self@ == other@
    }

    fn is_equal_to(&self, other: &&'b str) -> bool {
        same_text(*self, *other)
    }
}

impl<'a, 'b> EqualTo<&'b str> for &'a String {
    open spec fn equal_to(&self, other: &&'b str) -> bool {
        self@ == other@
    }

    fn is_equal_to(&self, other: &&'b str) -> bool {
        same_text(self.as_str(), *other)
    }
}

impl<'b> EqualTo<&'b i32> for i32 {
    open spec fn equal_to(&self, other: &&'b i32) -> bool {
        *self == **other
    }

    fn is_equal_to(&self, other: &&'b i32) -> bool {
        *self == **other
    }
}

impl<'a, 'b> EqualTo<&'b i32> for &'a i32 {
    open spec fn equal_to(&self, other: &&'b i32) -> bool {
        **self == **other
    }

    fn is_equal_to(&self, other: &&'b i32) -> bool {
        **self == **other
    }
}

impl<'b> EqualTo<&'b str> for String {
    open spec fn equal_to(&self, other: &&'b str) -> bool {
        self@ == other@
    }

    fn is_equal_to(&self, other: &&'b str) -> bool {
        same_text(self.as_str(), *other)
    }
}

impl<'a> EqualTo<String> for &'a str {
    open spec fn equal_to(&self, other: &String) -> bool {
        self@ == other@
    }

    fn is_equal_to(&self, other: &String) -> bool {
        same_text(*self, other.as_str())
    }
}

impl EqualTo<String> for String {
    open spec fn equal_to(&self, other: &String) -> bool {
        self@ == other@
    }

    fn is_equal_to(&self, other: &String) -> bool {
        same_text(self.as_str(), other.as_str())
    }
}

/// Two sequences are equal when they have the same length and their
/// elements are equal pairwise.
pub open spec fn seqs_equal<T: EqualTo<U>, U>(a: Seq<T>, b: Seq<U>) -> bool {
    a.len() == b.len() && forall|i: int| 0 <= i < a.len() ==> #[trigger] a[i].equal_to(&b[i])
}

impl<T: EqualTo<U>, U> EqualTo<Vec<U>> for Vec<T> {
    open spec fn equal_to(&self, other: &Vec<U>) -> bool {
        seqs_equal(self@, other@)
    }

    fn is_equal_to(&self, other: &Vec<U>) -> (r: bool) {
        if self.len() != other.len() {
            return false;
        }
        let mut i: usize = 0;
        while i < self.len()
            invariant
                self@.len() == other@.len(),
                i <= self@.len(),
                forall|k: int| 0 <= k < i ==> #[trigger] self@[k].equal_to(&other@[k]),
            decreases self@.len() - i,
        {
            if !self[i].is_equal_to(&other[i]) {
                return false;
            }
            i = i + 1;
        }
        true
    }
}

impl Below<i32> for i32 {
    open spec fn below(&self, other: &i32) -> bool {
        *self < *other
    }

    fn is_below(&self, other: &i32) -> bool {
        *self < *other
    }
}

impl Below<i64> for i64 {
    open spec fn below(&self, other: &i64) -> bool {
        *self < *other
    }

    fn is_below(&self, other: &i64) -> bool {
        *self < *other
    }
}

impl Below<u32> for u32 {
    open spec fn below(&self, other: &u32) -> bool {
        *self < *other
    }

    fn is_below(&self, other: &u32) -> bool {
        *self < *other
    }
}

impl Below<u64> for u64 {
    open spec fn below(&self, other: &u64) -> bool {
        *self < *other
    }

    fn is_below(&self, other: &u64) -> bool {
        *self < *other
    }
}

impl Below<usize> for usize {
    open spec fn below(&self, other: &usize) -> bool {
        *self < *other
    }

    fn is_below(&self, other: &usize) -> bool {
        *self < *other
    }
}

impl<'a, 'b> Below<&'b str> for &'a str {
    open spec fn below(&self, other: &&'b str) -> bool {
        chars_below(self@, other@)
    }

    fn is_below(&self, other: &&'b str) -> bool {
        let x = chars_of(*self);
        let y = chars_of(*other);
        is_chars_below(x.as_slice(), y.as_slice())
    }
}

impl Below<String> for String {
    open spec fn below(&self, other: &String) -> bool {
        chars_below(self@, other@)
    }

    fn is_below(&self, other: &String) -> bool {
        let x = chars_of(self.as_str());
        let y = chars_of(other.as_str());
        is_chars_below(x.as_slice(), y.as_slice())
    }
}

} // verus!

verus! {

/// `prefix` followed by the printed form of `value`.
pub fn text_with<T: Printable + ?Sized>(prefix: &str, value: &T) -> (v: Vec<char>)
    ensures
        v@ == prefix@ + value.printed(),
{
    let mut out: Vec<char> = Vec::new();
    push_str(&mut out, prefix);
    value.print_to(&mut out);
    out
}

} // verus!

verus! {

/// Values that hold text: string slices and strings.
pub trait Text: View<V = Seq<char>> {
    /// The text as a string slice.
    fn as_text(&self) -> (r: &str)
        ensures
            r@ == self@,
    ;
}

impl<'a> Text for &'a str {
    fn as_text(&self) -> (r: &str) {
        *self
    }
}

impl Text for String {
    fn as_text(&self) -> (r: &str) {
        self.as_str()
    }
}

/// The characters of `a`, then those of `b`, then those of `c`.
pub fn join3(a: &[char], b: &str, c: &[char]) -> (v: Vec<char>)
    ensures
        v@ == a@ + b@ + c@,
{
    let mut out: Vec<char> = Vec::new();
    push_all(&mut out, a);
    push_str(&mut out, b);
    push_all(&mut out, c);
    out
}

/// The characters of `a` followed by those of `b`.
pub fn join2(a: &str, b: &[char]) -> (v: Vec<char>)
    ensures
        v@ == a@ + b@,
{
    let mut out: Vec<char> = Vec::new();
    push_str(&mut out, a);
    push_all(&mut out, b);
    out
}

} // verus!

verus! {

/// Values that hold a sequence of elements: vectors, arrays and slices.
pub trait Container {
    /// The type of the elements.
    type Item;

    /// The elements, in order.
    spec fn elements(&self) -> Seq<Self::Item>;

    /// The elements, in order.
    fn items(&self) -> (r: &[Self::Item])
        ensures
            r@ == self.elements(),
    ;
}

impl<T> Container for Vec<T> {
    type Item = T;

    open spec fn elements(&self) -> Seq<T> {
        self@
    }

    fn items(&self) -> (r: &[T]) {
        self.as_slice()
    }
}

impl<T, const N: usize> Container for [T; N] {
    type Item = T;

    open spec fn elements(&self) -> Seq<T> {
        self@
    }

    fn items(&self) -> (r: &[T]) {
        self.as_slice()
    }
}

impl<'a, T> Container for &'a [T] {
    type Item = T;

    open spec fn elements(&self) -> Seq<T> {
        self@
    }

    fn items(&self) -> (r: &[T]) {
        *self
    }
}

} // verus!

verus! {

/// Matchers on vectors whose results depend only on the elements.
pub trait ElementwiseMatcher<T>: Matcher<ActualT = Vec<T>> {
    /// Two vectors with the same elements match alike and are explained
    /// alike.
    proof fn lemma_elementwise(&self, a: &Vec<T>, b: &Vec<T>)
        requires
            a@ == b@,
        ensures
            self.accepts(a) == self.accepts(b),
            forall|d: Description| self.explains(a, d) == self.explains(b, d),
    ;
}

} // verus!

verus! {

/// Values that point to another: references, boxes and counted references.
pub trait Pointer {
    /// The type pointed to.
    type Target: ?Sized;

    /// The value pointed to.
    spec fn points_to(&self) -> &Self::Target;

    /// The value pointed to.
    fn target(&self) -> (r: &Self::Target)
        ensures
            r == self.points_to(),
    ;
}

impl<'a, T: ?Sized> Pointer for &'a T {
    type Target = T;

    open spec fn points_to(&self) -> &T {
        *self
    }

    fn target(&self) -> (r: &T) {
        *self
    }
}

impl<T> Pointer for Box<T> {
    type Target = T;

    open spec fn points_to(&self) -> &T {
        &**self
    }

    fn target(&self) -> (r: &T) {
        &**self
    }
}

impl<T> Pointer for std::rc::Rc<T> {
    type Target = T;

    open spec fn points_to(&self) -> &T {
        &**self
    }

    fn target(&self) -> (r: &T) {
        &**self
    }
}

} // verus!
