//! Where in the source an assertion stands.

use vstd::prelude::*;
use crate::text::{decimal, push_decimal, push_str};

verus! {

/// A location in a source file: file, line and column.
pub struct SourceLocation {
    pub file: String,
    pub line: u32,
    pub column: u32,
}

impl SourceLocation {
    /// A location at `line` and `column` of `file`.
    pub fn new(file: &str, line: u32, column: u32) -> (l: SourceLocation)
        ensures
            l.file@ == file@,
            l.line == line,
            l.column == column,
    {
        SourceLocation { file: file.to_owned(), line, column }
    }

    /// How the location is displayed: `  at file:line:column`.
    pub open spec fn shown(&self) -> Seq<char> {
        "  at "@ + self.file@ + seq![':'] + decimal(self.line as nat) + seq![':'] + decimal(
            self.column as nat,
        )
    }

    /// The displayed location, `  at file:line:column`.
    pub fn to_chars(&self) -> (v: Vec<char>)
        ensures
            v@ == self.shown(),
    {
        let mut v: Vec<char> = Vec::new();
        push_str(&mut v, "  at ");
        push_str(&mut v, self.file.as_str());
        v.push(':');
        push_decimal(&mut v, self.line as usize);
        v.push(':');
        push_decimal(&mut v, self.column as usize);
        v
    }
}

} // verus!
