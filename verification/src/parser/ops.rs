//! The operators of expressions, read from the rules of their tokens.
use crate::lexer::rule::Rule;
use vstd::prelude::*;

verus! {

/// Arithmetic infix operators
#[allow(missing_docs)]
#[derive(Debug, Clone, Copy, PartialEq, Eq, Structural)]
pub enum ArithmeticOp {
    Add,
    Sub,
    Mul,
    Div,
    Mod,
    Pow,
}

/// The operator a rule stands for
pub open spec fn arithmetic_op_of(rule: Rule) -> Option<ArithmeticOp> {
    match rule {
        Rule::Add => Some(ArithmeticOp::Add),
        Rule::Sub => Some(ArithmeticOp::Sub),
        Rule::Mul => Some(ArithmeticOp::Mul),
        Rule::Div => Some(ArithmeticOp::Div),
        Rule::Mod => Some(ArithmeticOp::Mod),
        Rule::Pow => Some(ArithmeticOp::Pow),
        _ => None,
    }
}

impl ArithmeticOp {
    /// Convert a rule to an operator
    pub fn from_rule(rule: Rule) -> (op: Option<Self>)
        ensures
            op == arithmetic_op_of(rule),
    {
        match rule {
            Rule::Add => Some(ArithmeticOp::Add),
            Rule::Sub => Some(ArithmeticOp::Sub),
            Rule::Mul => Some(ArithmeticOp::Mul),
            Rule::Div => Some(ArithmeticOp::Div),
            Rule::Mod => Some(ArithmeticOp::Mod),
            Rule::Pow => Some(ArithmeticOp::Pow),
            _ => None,
        }
    }
}

/// Bitwise infix operators
#[allow(missing_docs)]
#[derive(Debug, Clone, Copy, PartialEq, Eq, Structural)]
pub enum BitwiseOp {
    And,
    Or,
    Xor,
    ShiftLeft,
    ShiftRight,
}

/// The operator a rule stands for
pub open spec fn bitwise_op_of(rule: Rule) -> Option<BitwiseOp> {
    match rule {
        Rule::BitwiseAnd => Some(BitwiseOp::And),
        Rule::BitwiseOr => Some(BitwiseOp::Or),
        Rule::Xor => Some(BitwiseOp::Xor),
        Rule::SL => Some(BitwiseOp::ShiftLeft),
        Rule::SR => Some(BitwiseOp::ShiftRight),
        _ => None,
    }
}

impl BitwiseOp {
    /// Convert a rule to an operator
    pub fn from_rule(rule: Rule) -> (op: Option<Self>)
        ensures
            op == bitwise_op_of(rule),
    {
        match rule {
            Rule::BitwiseAnd => Some(BitwiseOp::And),
            Rule::BitwiseOr => Some(BitwiseOp::Or),
            Rule::Xor => Some(BitwiseOp::Xor),
            Rule::SL => Some(BitwiseOp::ShiftLeft),
            Rule::SR => Some(BitwiseOp::ShiftRight),
            _ => None,
        }
    }
}

/// Logical operators
#[allow(missing_docs)]
#[derive(Debug, Clone, Copy, PartialEq, Eq, Structural)]
pub enum LogicalOp {
    And,
    Or,
}

/// The operator a rule stands for
pub open spec fn logical_op_of(rule: Rule) -> Option<LogicalOp> {
    match rule {
        Rule::LogicalAnd => Some(LogicalOp::And),
        Rule::LogicalOr => Some(LogicalOp::Or),
        _ => None,
    }
}

/// Comparison operators
#[allow(missing_docs)]
#[derive(Debug, Clone, Copy, PartialEq, Eq, Structural)]
pub enum ComparisonOp {
    Eq,
    Neq,
    Gt,
    Lt,
    Gte,
    Lte,
    SEq,
    SNeq,
}

/// The operator a rule stands for
pub open spec fn comparison_op_of(rule: Rule) -> Option<ComparisonOp> {
    match rule {
        Rule::Eq => Some(ComparisonOp::Eq),
        Rule::Ne => Some(ComparisonOp::Neq),
        Rule::Gt => Some(ComparisonOp::Gt),
        Rule::Lt => Some(ComparisonOp::Lt),
        Rule::Ge => Some(ComparisonOp::Gte),
        Rule::Le => Some(ComparisonOp::Lte),
        Rule::SEq => Some(ComparisonOp::SEq),
        Rule::SNe => Some(ComparisonOp::SNeq),
        _ => None,
    }
}

impl ComparisonOp {
    /// Convert a rule to an operator
    pub fn from_rule(rule: Rule) -> (op: Option<Self>)
        ensures
            op == comparison_op_of(rule),
    {
        match rule {
            Rule::Eq => Some(ComparisonOp::Eq),
            Rule::Ne => Some(ComparisonOp::Neq),
            Rule::Gt => Some(ComparisonOp::Gt),
            Rule::Lt => Some(ComparisonOp::Lt),
            Rule::Ge => Some(ComparisonOp::Gte),
            Rule::Le => Some(ComparisonOp::Lte),
            Rule::SEq => Some(ComparisonOp::SEq),
            Rule::SNe => Some(ComparisonOp::SNeq),
            _ => None,
        }
    }
}

/// Matching operators
#[allow(missing_docs)]
#[derive(Debug, Clone, Copy, PartialEq, Eq, Structural)]
pub enum MatchingOp {
    Matches,
    StartsWith,
    EndsWith,
    Contains,
}

/// The operator a rule stands for
pub open spec fn matching_op_of(rule: Rule) -> Option<MatchingOp> {
    match rule {
        Rule::Matches => Some(MatchingOp::Matches),
        Rule::StartsWith => Some(MatchingOp::StartsWith),
        Rule::EndsWith => Some(MatchingOp::EndsWith),
        Rule::Contains => Some(MatchingOp::Contains),
        _ => None,
    }
}

impl MatchingOp {
    /// Convert a rule to an operator
    pub fn from_rule(rule: Rule) -> (op: Option<Self>)
        ensures
            op == matching_op_of(rule),
    {
        match rule {
            Rule::Matches => Some(MatchingOp::Matches),
            Rule::StartsWith => Some(MatchingOp::StartsWith),
            Rule::EndsWith => Some(MatchingOp::EndsWith),
            Rule::Contains => Some(MatchingOp::Contains),
            _ => None,
        }
    }
}

} // verus!
