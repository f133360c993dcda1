//! The types of values: concrete types, groups of types, and all of them.
use crate::text::str_eq;
use vstd::prelude::*;

verus! {

/// Represents the type of a value.
/// Can be a concrete type, a group of types, or all types.
#[allow(missing_docs)]
#[derive(Debug, Clone, Copy, PartialEq, Eq, Structural, PartialOrd, Ord, Hash)]
pub enum ValueType {
    Boolean,
    Integer,
    Decimal,
    String,
    Array,
    Object,
    Range,
    Function,
    Primitive,
    Numeric,
    Collection,
    All,
}

/// The byte that stands for a type in bytecode
pub open spec fn type_code(t: ValueType) -> u8 {
    match t {
        ValueType::Boolean => 0x11,
        ValueType::Integer => 0x12,
        ValueType::Decimal => 0x14,
        ValueType::String => 0x18,
        ValueType::Array => 0x21,
        ValueType::Object => 0x22,
        ValueType::Range => 0x24,
        ValueType::Function => 0x41,
        ValueType::Primitive => 0x1f,
        ValueType::Numeric => 0x17,
        ValueType::Collection => 0x27,
        ValueType::All => 0xff,
    }
}

/// The name of a type in source text
pub open spec fn value_type_name(t: ValueType) -> Seq<char> {
    match t {
        ValueType::Boolean => "bool"@,
        ValueType::Integer => "int"@,
        ValueType::Decimal => "float"@,
        ValueType::String => "string"@,
        ValueType::Array => "array"@,
        ValueType::Object => "object"@,
        ValueType::Range => "range"@,
        ValueType::Function => "function"@,
        ValueType::Primitive => "primitive"@,
        ValueType::Numeric => "numeric"@,
        ValueType::Collection => "collection"@,
        ValueType::All => "all"@,
    }
}

/// Every type is read back from its byte
pub proof fn lemma_type_code_roundtrip(t: ValueType)
    ensures
        type_from_code(type_code(t)) == Some(t),
{
}

/// The type a byte stands for, if any
pub open spec fn type_from_code(code: u8) -> Option<ValueType> {
    if code == 0x11 { Some(ValueType::Boolean) } else
    if code == 0x12 { Some(ValueType::Integer) } else
    if code == 0x14 { Some(ValueType::Decimal) } else
    if code == 0x18 { Some(ValueType::String) } else
    if code == 0x21 { Some(ValueType::Array) } else
    if code == 0x22 { Some(ValueType::Object) } else
    if code == 0x24 { Some(ValueType::Range) } else
    if code == 0x41 { Some(ValueType::Function) } else
    if code == 0x1f { Some(ValueType::Primitive) } else
    if code == 0x17 { Some(ValueType::Numeric) } else
    if code == 0x27 { Some(ValueType::Collection) } else
    if code == 0xff { Some(ValueType::All) } else { None }
}

/// The type a name stands for, if any
pub open spec fn type_from_name(name: Seq<char>) -> Option<ValueType> {
    if name == "bool"@ { Some(ValueType::Boolean) } else
    if name == "int"@ { Some(ValueType::Integer) } else
    if name == "float"@ { Some(ValueType::Decimal) } else
    if name == "string"@ { Some(ValueType::String) } else
    if name == "array"@ { Some(ValueType::Array) } else
    if name == "object"@ { Some(ValueType::Object) } else
    if name == "range"@ { Some(ValueType::Range) } else
    if name == "function"@ { Some(ValueType::Function) } else
    if name == "primitive"@ { Some(ValueType::Primitive) } else
    if name == "numeric"@ { Some(ValueType::Numeric) } else
    if name == "collection"@ { Some(ValueType::Collection) } else
    if name == "all"@ { Some(ValueType::All) } else { None }
}

/// Every type is read back from its name
pub proof fn lemma_value_type_name_roundtrip(t: ValueType)
    ensures
        type_from_name(value_type_name(t)) == Some(t),
{
    match t {
        ValueType::Boolean => {
            reveal_strlit("bool");
        },
        ValueType::Integer => {
            reveal_strlit("int");
            reveal_strlit("bool");
            assert("int"@.len() != "bool"@.len());
        },
        ValueType::Decimal => {
            reveal_strlit("float");
            reveal_strlit("bool");
            assert("float"@.len() != "bool"@.len());
            reveal_strlit("int");
            assert("float"@.len() != "int"@.len());
        },
        ValueType::String => {
            reveal_strlit("string");
            reveal_strlit("bool");
            assert("string"@.len() != "bool"@.len());
            reveal_strlit("int");
            assert("string"@.len() != "int"@.len());
            reveal_strlit("float");
            assert("string"@.len() != "float"@.len());
        },
        ValueType::Array => {
            reveal_strlit("array");
            reveal_strlit("bool");
            assert("array"@.len() != "bool"@.len());
            reveal_strlit("int");
            assert("array"@.len() != "int"@.len());
            reveal_strlit("float");
            assert("array"@[0] != "float"@[0]);
            reveal_strlit("string");
            assert("array"@.len() != "string"@.len());
        },
        ValueType::Object => {
            reveal_strlit("object");
            reveal_strlit("bool");
            assert("object"@.len() != "bool"@.len());
            reveal_strlit("int");
            assert("object"@.len() != "int"@.len());
            reveal_strlit("float");
            assert("object"@.len() != "float"@.len());
            reveal_strlit("string");
            assert("object"@[0] != "string"@[0]);
            reveal_strlit("array");
            assert("object"@.len() != "array"@.len());
        },
        ValueType::Range => {
            reveal_strlit("range");
            reveal_strlit("bool");
            assert("range"@.len() != "bool"@.len());
            reveal_strlit("int");
            assert("range"@.len() != "int"@.len());
            reveal_strlit("float");
            assert("range"@[0] != "float"@[0]);
            reveal_strlit("string");
            assert("range"@.len() != "string"@.len());
            reveal_strlit("array");
            assert("range"@[0] != "array"@[0]);
            reveal_strlit("object");
            assert("range"@.len() != "object"@.len());
        },
        ValueType::Function => {
            reveal_strlit("function");
            reveal_strlit("bool");
            assert("function"@.len() != "bool"@.len());
            reveal_strlit("int");
            assert("function"@.len() != "int"@.len());
            reveal_strlit("float");
            assert("function"@.len() != "float"@.len());
            reveal_strlit("string");
            assert("function"@.len() != "string"@.len());
            reveal_strlit("array");
            assert("function"@.len() != "array"@.len());
            reveal_strlit("object");
            assert("function"@.len() != "object"@.len());
            reveal_strlit("range");
            assert("function"@.len() != "range"@.len());
        },
        ValueType::Primitive => {
            reveal_strlit("primitive");
            reveal_strlit("bool");
            assert("primitive"@.len() != "bool"@.len());
            reveal_strlit("int");
            assert("primitive"@.len() != "int"@.len());
            reveal_strlit("float");
            assert("primitive"@.len() != "float"@.len());
            reveal_strlit("string");
            assert("primitive"@.len() != "string"@.len());
            reveal_strlit("array");
            assert("primitive"@.len() != "array"@.len());
            reveal_strlit("object");
            assert("primitive"@.len() != "object"@.len());
            reveal_strlit("range");
            assert("primitive"@.len() != "range"@.len());
            reveal_strlit("function");
            assert("primitive"@.len() != "function"@.len());
        },
        ValueType::Numeric => {
            reveal_strlit("numeric");
            reveal_strlit("bool");
            assert("numeric"@.len() != "bool"@.len());
            reveal_strlit("int");
            assert("numeric"@.len() != "int"@.len());
            reveal_strlit("float");
            assert("numeric"@.len() != "float"@.len());
            reveal_strlit("string");
            assert("numeric"@.len() != "string"@.len());
            reveal_strlit("array");
            assert("numeric"@.len() != "array"@.len());
            reveal_strlit("object");
            assert("numeric"@.len() != "object"@.len());
            reveal_strlit("range");
            assert("numeric"@.len() != "range"@.len());
            reveal_strlit("function");
            assert("numeric"@.len() != "function"@.len());
            reveal_strlit("primitive");
            assert("numeric"@.len() != "primitive"@.len());
        },
        ValueType::Collection => {
            reveal_strlit("collection");
            reveal_strlit("bool");
            assert("collection"@.len() != "bool"@.len());
            reveal_strlit("int");
            assert("collection"@.len() != "int"@.len());
            reveal_strlit("float");
            assert("collection"@.len() != "float"@.len());
            reveal_strlit("string");
            assert("collection"@.len() != "string"@.len());
            reveal_strlit("array");
            assert("collection"@.len() != "array"@.len());
            reveal_strlit("object");
            assert("collection"@.len() != "object"@.len());
            reveal_strlit("range");
            assert("collection"@.len() != "range"@.len());
            reveal_strlit("function");
            assert("collection"@.len() != "function"@.len());
            reveal_strlit("primitive");
            assert("collection"@.len() != "primitive"@.len());
            reveal_strlit("numeric");
            assert("collection"@.len() != "numeric"@.len());
        },
        ValueType::All => {
            reveal_strlit("all");
            reveal_strlit("bool");
            assert("all"@.len() != "bool"@.len());
            reveal_strlit("int");
            assert("all"@[0] != "int"@[0]);
            reveal_strlit("float");
            assert("all"@.len() != "float"@.len());
            reveal_strlit("string");
            assert("all"@.len() != "string"@.len());
            reveal_strlit("array");
            assert("all"@.len() != "array"@.len());
            reveal_strlit("object");
            assert("all"@.len() != "object"@.len());
            reveal_strlit("range");
            assert("all"@.len() != "range"@.len());
            reveal_strlit("function");
            assert("all"@.len() != "function"@.len());
            reveal_strlit("primitive");
            assert("all"@.len() != "primitive"@.len());
            reveal_strlit("numeric");
            assert("all"@.len() != "numeric"@.len());
            reveal_strlit("collection");
            assert("all"@.len() != "collection"@.len());
        },
    }
}

impl ValueType {
    /// Parses a `ValueType` from its name
    pub fn from_str(s: &str) -> (r: Option<Self>)
        ensures
            r == type_from_name(s@),
    {
        if str_eq(s, "bool") {
            Some(ValueType::Boolean)
        } else if str_eq(s, "int") {
            Some(ValueType::Integer)
        } else if str_eq(s, "float") {
            Some(ValueType::Decimal)
        } else if str_eq(s, "string") {
            Some(ValueType::String)
        } else if str_eq(s, "array") {
            Some(ValueType::Array)
        } else if str_eq(s, "object") {
            Some(ValueType::Object)
        } else if str_eq(s, "range") {
            Some(ValueType::Range)
        } else if str_eq(s, "function") {
            Some(ValueType::Function)
        } else if str_eq(s, "primitive") {
            Some(ValueType::Primitive)
        } else if str_eq(s, "numeric") {
            Some(ValueType::Numeric)
        } else if str_eq(s, "collection") {
            Some(ValueType::Collection)
        } else if str_eq(s, "all") {
            Some(ValueType::All)
        } else {
            None
        }
    }

    /// Parses a `ValueType` from its byte
    pub fn from_u8(value: u8) -> (r: Option<Self>)
        ensures
            r == type_from_code(value),
    {
        match value {
            0x11 => Some(ValueType::Boolean),
            0x12 => Some(ValueType::Integer),
            0x14 => Some(ValueType::Decimal),
            0x18 => Some(ValueType::String),
            0x21 => Some(ValueType::Array),
            0x22 => Some(ValueType::Object),
            0x24 => Some(ValueType::Range),
            0x41 => Some(ValueType::Function),
            0x1f => Some(ValueType::Primitive),
            0x17 => Some(ValueType::Numeric),
            0x27 => Some(ValueType::Collection),
            0xff => Some(ValueType::All),
            _ => None,
        }
    }

    /// The byte that stands for this type in bytecode
    pub fn code(self) -> (c: u8)
        ensures
            c == type_code(self),
    {
        match self {
            ValueType::Boolean => 0x11,
            ValueType::Integer => 0x12,
            ValueType::Decimal => 0x14,
            ValueType::String => 0x18,
            ValueType::Array => 0x21,
            ValueType::Object => 0x22,
            ValueType::Range => 0x24,
            ValueType::Function => 0x41,
            ValueType::Primitive => 0x1f,
            ValueType::Numeric => 0x17,
            ValueType::Collection => 0x27,
            ValueType::All => 0xff,
        }
    }

    /// The name of this type in source text
    pub fn to_string(&self) -> (s: String)
        ensures
            s@ == value_type_name(*self),
    {
        let name: &str = match self {
            ValueType::Boolean => "bool",
            ValueType::Integer => "int",
            ValueType::Decimal => "float",
            ValueType::String => "string",
            ValueType::Array => "array",
            ValueType::Object => "object",
            ValueType::Range => "range",
            ValueType::Function => "function",
            ValueType::Primitive => "primitive",
            ValueType::Numeric => "numeric",
            ValueType::Collection => "collection",
            ValueType::All => "all",
        };
        String::from_str(name)
    }
}

} // verus!
