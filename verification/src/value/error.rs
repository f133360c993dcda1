//! Errors of operations on values.
use crate::value::types::ValueType;
use vstd::prelude::*;

verus! {

/// An error that occurs during value operations
#[derive(Debug, Clone, PartialEq, Eq, Structural)]
pub enum ValueError {
    /// Caused by operations overflowing a type
    ArithmeticOverflow,
    /// Caused by using an operator on a type for which it is not defined
    InvalidOperationForType(ValueType),
    /// Caused by converting a value to a type that is not supported
    TypeConversion(ValueType, ValueType),
    /// Caused by attempting to access a key that does not exist
    KeyNotFound,
    /// Caused by attempting to access an index that does not exist
    IndexOutOfBounds,
    /// Caused by attempting to index into a value that does not support indexing
    CannotIndexInto(ValueType),
    /// Caused by attempting to use a value as an index that is not supported
    CannotIndexUsing(ValueType),
    /// Caused by attempting to alter a value that is read-only
    ReadOnlyIndexing,
    /// A regex literal with a flag that is not one
    InvalidRegexFlag(char),
    /// A regex that does not compile
    RegexError,
}

} // verus!
