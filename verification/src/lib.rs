//! Lavendeux parser: lexer, token stack, literal parsing, values and the
//! byte encodings used for bytecode and debug profiles.
#![allow(unused_imports)]

use vstd::prelude::*;

pub mod traits;
pub mod lexer;
pub mod text;
pub mod literals;
pub mod parser;
pub mod value;
pub mod compiler;
pub mod error;
pub mod cli;
