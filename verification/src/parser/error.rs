//! Errors found while parsing.
use crate::lexer::rule::Rule;
use crate::lexer::token::Token;
use crate::literals::LiteralError;
use vstd::prelude::*;

verus! {

/// Error during parsing
#[derive(Debug, Clone)]
pub enum ParserError {
    /// Syntax error
    Syntax {
        /// Expected rules
        expected: Vec<Rule>,
        /// Found token
        found: Token,
    },
    /// Invalid literal value
    InvalidLiteral(Token, LiteralError),
    /// Invalid type
    InvalidType(Token),
    /// Cannot cast to type
    CannotCastToType(Token),
    /// Unreachable switch case
    UnreachableSwitchCase(Token),
    /// Missing default case
    MissingDefaultCase(Token),
    /// Missing else block
    MissingElse(Token),
    /// Missing function return value
    MustReturnAValue(Token),
    /// Assignment to constant value
    AssignmentToConstant(Token),
    /// Not a decorator
    NotADecorator(Token),
    /// Invalid decorator signature
    DecoratorSignature(Token),
    /// A function with more than 255 arguments
    TooManyArguments(Token),
}

/// The token an error is about
pub open spec fn error_token(e: ParserError) -> Token {
    match e {
        ParserError::Syntax { found, .. } => found,
        ParserError::InvalidLiteral(t, _) => t,
        ParserError::InvalidType(t) => t,
        ParserError::CannotCastToType(t) => t,
        ParserError::UnreachableSwitchCase(t) => t,
        ParserError::MissingDefaultCase(t) => t,
        ParserError::MissingElse(t) => t,
        ParserError::MustReturnAValue(t) => t,
        ParserError::AssignmentToConstant(t) => t,
        ParserError::NotADecorator(t) => t,
        ParserError::DecoratorSignature(t) => t,
        ParserError::TooManyArguments(t) => t,
    }
}

impl ParserError {
    /// Get the token that caused the error
    pub fn token(&self) -> (t: &Token)
        ensures
            *t == error_token(*self),
    {
        match self {
            ParserError::Syntax { found, .. } => found,
            ParserError::InvalidLiteral(t, _) => t,
            ParserError::InvalidType(t) => t,
            ParserError::CannotCastToType(t) => t,
            ParserError::UnreachableSwitchCase(t) => t,
            ParserError::MissingDefaultCase(t) => t,
            ParserError::MissingElse(t) => t,
            ParserError::MustReturnAValue(t) => t,
            ParserError::AssignmentToConstant(t) => t,
            ParserError::NotADecorator(t) => t,
            ParserError::DecoratorSignature(t) => t,
            ParserError::TooManyArguments(t) => t,
        }
    }
}

} // verus!
