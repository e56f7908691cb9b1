use crate::span::Span;
use vstd::prelude::*;

verus! {

/// The parser's error taxonomy. Parsing is fail-fast: the first malformed
/// construct ends the parse, and every error except `UnexpectedEOF` carries
/// a [`Span`] locating the offending bytes in the source text.
#[derive(Clone, Copy, Debug, PartialEq, Eq, Structural)]
pub enum ChemfigParseError {
    /// The lookahead character matches no known syntactic form.
    InvalidChar { c: char, span: Span },
    /// A `(` or `]` was required, but a different character stood there.
    UnenclosedGroup { expected: char, found: char, span: Span },
    /// The input ended where a specific character was required.
    UnexpectedEOF,
    /// Bond dispatch consumed a character that is none of `-`, `=`, or the
    /// triple-bond glyph.
    InvalidBondIdent(char, Span),
    /// Element dispatch began with a character that is not an ASCII
    /// uppercase letter.
    InvalidElementIdent(char, Span),
    /// A repetition was encountered while the accumulator was empty.
    NothingToRepeat(Span),
    /// A repetition count parsed to exactly zero.
    ZeroRepetitionCount(Span),
    /// A ring's captured children do not end in a bond token.
    RingMissingBond(Span),
}

} // verus!
