//! Errors found while compiling.
use crate::error::Error;
use crate::lexer::token::Token;
use crate::parser::error::ParserError;
use vstd::prelude::*;

verus! {

/// Error during compilation
#[derive(Debug)]
pub enum CompilerError {
    /// Error node found in the AST
    Parser(ParserError),
    /// Error compiling a `__syscalld` call
    InvalidSyscallOpcode(Token, String),
    /// Error compiling an `__include` call: not a string literal
    InvalidInclude(Token),
    /// Error compiling an `__include` call: the file could not be read
    FileNotFound(Token, String),
    /// Error compiling an `__include` call: the included source has an error
    IncludeError(Token, Box<Error>),
    /// Error compiling a special function call with the wrong number of arguments
    InvalidArgumentCount(Token, String, usize, usize),
}

impl From<ParserError> for CompilerError {
    fn from(e: ParserError) -> (r: Self)
        ensures
            r == CompilerError::Parser(e),
    {
        CompilerError::Parser(e)
    }
}

impl vstd::std_specs::convert::FromSpecImpl<ParserError> for CompilerError {
    open spec fn obeys_from_spec() -> bool {
        true
    }

    open spec fn from_spec(e: ParserError) -> CompilerError {
        CompilerError::Parser(e)
    }
}

} // verus!
