use vstd::prelude::*;

verus! {

/// Lexical category of a token produced by the scanner.
///
/// `NoOp` marks a malformed escape (a trailing backslash with nothing to
/// escape); no grammar production accepts it, so a pattern that ends in a
/// bare backslash is rejected by the parser.  `EOF` marks the end of the
/// pattern.
#[derive(Clone, Copy, Debug, PartialEq, Eq, Structural)]
pub enum TokenType {
    Star,
    RightParen,
    LeftParen,
    Char,
    Union,
    NoOp,
    EOF,
}

/// One lexical token: its category and, for `Char` tokens, the literal byte
/// (for the other categories the byte that was read, or a filler value).
#[derive(Clone, Copy, Debug, PartialEq, Eq, Structural)]
pub struct Token {
    pub type_: TokenType,
    pub value: u8,
}

impl Token {
    pub fn new(type_: TokenType, value: u8) -> (t: Token)
        ensures
            t == (Token { type_, value }),
    {
        Token { type_, value }
    }
}

} // verus!
