//! Shortening of long one-line debug strings.

use vstd::prelude::*;
use crate::text::{chars_of, contains_chars, contains_seq, lines, split_lines, views_of};

verus! {

/// Strings of more characters than this are abbreviated.
pub const ABBREVIATION_LENGTH_THRESHOLD: usize = 61;

/// How many characters an abbreviation keeps at each end.
pub const ABBREVIATION_MARGIN: usize = 31;

/// The escaped line break `\n` (a backslash and an `n`).
pub open spec fn escaped_newline() -> Seq<char> {
    seq!['\\', 'n']
}

/// The abbreviation of `v`: a string of one line that holds an escaped line
/// break and more than the threshold of characters keeps its first and last
/// margin of characters around an ellipsis; any other string is kept.
pub open spec fn abbreviation(v: Seq<char>) -> Seq<char> {
    if lines(v).len() > 1 || !contains_seq(v, escaped_newline()) {
        v
    } else if v.len() > ABBREVIATION_LENGTH_THRESHOLD {
        v.take(ABBREVIATION_MARGIN as int) + seq!['…'] + v.skip(v.len() - ABBREVIATION_MARGIN)
    } else {
        v
    }
}

/// Abbreviates `value` (see [`abbreviation`]).
pub fn abbreviate(value: &str) -> (r: String)
    ensures
        r@ == abbreviation(value@),
{
    let v = chars_of(value);
    let ls = split_lines(v.as_slice());
    let line_count = ls.len();
    assert(views_of(ls@).len() == ls@.len());
    let escaped: Vec<char> = vec!['\\', 'n'];
    assert(escaped@ =~= escaped_newline());
    if line_count > 1 || !contains_chars(v.as_slice(), escaped.as_slice()) {
        return value.to_owned();
    }
    if v.len() > ABBREVIATION_LENGTH_THRESHOLD {
        let n = v.len();
        let mut out: Vec<char> = Vec::new();
        let mut i: usize = 0;
        while i < ABBREVIATION_MARGIN
            invariant
                n == v@.len(),
                n > ABBREVIATION_LENGTH_THRESHOLD,
                i <= ABBREVIATION_MARGIN,
                out@ == v@.take(i as int),
            decreases ABBREVIATION_MARGIN - i,
        {
            out.push(v[i]);
            i = i + 1;
            assert(out@ =~= v@.take(i as int));
        }
        out.push('…');
        let ghost head = out@;
        let mut j: usize = n - ABBREVIATION_MARGIN;
        while j < n
            invariant
                n == v@.len(),
                n > ABBREVIATION_LENGTH_THRESHOLD,
                n - ABBREVIATION_MARGIN <= j <= n,
                out@ == head + v@.subrange(n - ABBREVIATION_MARGIN, j as int),
            decreases n - j,
        {
            out.push(v[j]);
            j = j + 1;
            assert(out@ =~= head + v@.subrange(n - ABBREVIATION_MARGIN, j as int));
        }
        assert(v@.subrange(n - ABBREVIATION_MARGIN, n as int) =~= v@.skip(n - ABBREVIATION_MARGIN));
        crate::text::string_of(out.as_slice())
    } else {
        value.to_owned()
    }
}

} // verus!
