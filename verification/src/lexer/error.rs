//! Errors found while lexing.
use crate::lexer::token::Token;
use vstd::prelude::*;

verus! {

/// Error during lexing
#[derive(Debug, Clone)]
pub enum LexerError {
    /// Encountered an unexpected token
    UnrecognizedToken(Token),
}

impl LexerError {
    /// The message of the error: the text of the token, then what is wrong
    pub fn to_string(&self) -> (s: String)
        requires
            self->UnrecognizedToken_0@.in_bounds(),
        ensures
            s@ == "| "@ + self->UnrecognizedToken_0@.text() + "\n= Unrecognized token"@,
    {
        match self {
            LexerError::UnrecognizedToken(t) => {
                let mut s = String::from_str("| ");
                s.append(t.slice());
                s.append("\n= Unrecognized token");
                s
            },
        }
    }
}

} // verus!
