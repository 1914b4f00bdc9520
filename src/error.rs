use vstd::prelude::*;

use crate::span::Span;

verus! {

/// A lexical or syntax error, located in the source.
#[derive(Debug, Clone, Copy, PartialEq, Eq, Structural)]
pub struct Error {
    pub kind: ErrorKind,
    pub span: Span,
}

#[derive(Debug, Clone, Copy, PartialEq, Eq, Structural)]
pub enum ErrorKind {
    /// A hex escape whose value is no Unicode scalar value.
    InvalidUnicodeScalar { value: u32 },
    /// A hex escape with fewer hex digits than its letter asks for.
    InvalidHexEscape { char: char, expected_digits: usize },
    /// A backslash before a character that has no escape meaning.
    InvalidEscapeCharacter { char: char },
    /// An unescaped tab inside a character class.
    LiteralTabCharacter,
    /// A bound that does not fit in `usize`.
    IntegerOverflow,
    /// The input ended inside an escape or an unterminated construct.
    UnexpectedEOF,
    /// A token that the grammar does not allow where it stands.
    UnexpectedToken,
    /// A pattern, alternative or group with nothing in it.
    EmptyPattern,
    /// A bound `{m,n}` with `m > n`.
    InvalidRangeBounds { min: usize, max: usize },
    /// A class range `a-b` with `a` after `b`.
    InvalidCharRange { first: char, last: char },
}

} // verus!
