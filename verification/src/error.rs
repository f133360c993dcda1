//! The error type of the language: whatever went wrong while lexing, parsing
//! or compiling.
use crate::compiler::error::CompilerError;
use crate::lexer::error::LexerError;
use crate::parser::error::ParserError;
use vstd::prelude::*;

verus! {

/// Error type for the language
#[derive(Debug)]
pub enum Error {
    /// Errors during tokenization; mostly unrecognized tokens
    Lexer(LexerError),
    /// Errors during parsing; syntax errors
    Parser(ParserError),
    /// Errors during compilation
    Compiler(CompilerError),
}

} // verus!
