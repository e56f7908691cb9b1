//! A verified parser for a compact textual notation describing chemical
//! structure fragments: element symbols, bonds of varying order,
//! parenthesised branch groups, ring closures, and repetition shorthand.
//!
//! The notation's grammar is given a mathematical reading by the spec
//! functions in [`grammar`]; the executable parser in [`parser`] is proved
//! to return exactly what that reading assigns to its input.

pub mod chars;
pub mod error;
pub mod grammar;
pub mod laws;
pub mod parser;
pub mod span;
pub mod tokens;
