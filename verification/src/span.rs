use vstd::prelude::*;

verus! {

/// A half-open byte-offset interval `[from, to)` into the source text.
/// Spans locate lexical errors precisely; they never drive control flow.
#[derive(Clone, Copy, Debug, Hash, PartialEq, Eq, Structural)]
pub struct Span {
    pub from: usize,
    pub to: usize,
}

impl Span {
    /// Builds the interval `[from, to)`.
    pub fn new(from: usize, to: usize) -> (s: Self)
        ensures
            s == (Span { from, to }),
    {
        Span { from, to }
    }
}

} // verus!
