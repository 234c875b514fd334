use vstd::prelude::*;

verus! {

/// The two failures a caller of the engine can see.
///
/// `EncodingError`: a pattern or an input contains a non-ASCII character;
/// it is detected before any scanning or matching begins.
/// `SyntaxError`: the pattern's token stream violates the grammar; the whole
/// compilation is abandoned with no partial automaton.
#[derive(Clone, Copy, Debug, PartialEq, Eq, Structural)]
pub enum RegexError {
    EncodingError,
    SyntaxError,
}

impl RegexError {
    /// A short human-readable description, for callers that print failures.
    pub fn message(&self) -> (m: &'static str)
        ensures
            *self == RegexError::EncodingError ==> m@ == "input was not ascii"@,
            *self == RegexError::SyntaxError ==> m@ == "parsing error: unexpected token"@,
    {
        match self {
            RegexError::EncodingError => "input was not ascii",
            RegexError::SyntaxError => "parsing error: unexpected token",
        }
    }
}

} // verus!
