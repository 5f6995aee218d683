//! Source positions.

use vstd::prelude::*;

verus! {

/// A position in a source text.
#[derive(Clone, Copy, Debug, PartialEq, Eq, Structural)]
pub struct Loc {
    /// Offset in characters from the start of the text.
    pub pos: usize,
    /// Line, counted from zero.
    pub line: usize,
    /// Column in characters, counted from zero.
    pub col: usize,
}

/// The stretch of a source file that a token or a word covers.
#[derive(Clone, Copy, Debug, PartialEq, Eq, Structural)]
pub struct CodeSpan {
    /// Which source file, as an index into the table of loaded files.
    pub file: usize,
    pub start: Loc,
    pub end: Loc,
}

/// A value together with the span it was read from.
#[derive(Debug, PartialEq, Eq)]
pub struct Sp<T> {
    pub value: T,
    pub span: CodeSpan,
}

impl<T> Sp<T> {
    /// `value`, read from `span`.
    pub fn new(value: T, span: CodeSpan) -> (sp: Sp<T>)
        ensures
            sp.value == value,
            sp.span == span,
    {
        Sp { value, span }
    }
}

} // verus!
