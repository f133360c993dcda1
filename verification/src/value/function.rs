//! Function values: compiled bodies with their signature and documentation.
use crate::compiler::debug_profile::DebugProfile;
use crate::compiler::function_docs::FunctionDocs;
use crate::value::types::ValueType;
use crate::value::Value;
use vstd::prelude::*;

verus! {

/// An argument to a function
#[derive(Debug)]
pub struct FunctionArgument {
    /// The hash of the name of the argument
    pub name_hash: u64,
    /// The expected type of the argument
    pub ty: ValueType,
    /// The default value of the argument
    pub default: Option<Value>,
}

/// A function value
#[derive(Debug)]
pub struct Function {
    /// The hash of the name of the function
    pub name_hash: u64,
    /// The return type of the function
    pub returns: ValueType,
    /// The arguments the function expects
    pub expects: Vec<FunctionArgument>,
    /// The debug profile of the compiled function
    pub debug: Option<DebugProfile>,
    /// The documentation of the function
    pub docs: FunctionDocs,
    /// The bytecode of the function
    pub body: Vec<u8>,
}

} // verus!
