//! The rule set of the language: one variant per kind of token or node.
use crate::traits::{
    be_decode, be_encode, lemma_fixed_prefix, lemma_take_encoded, lemma_pow256_values, ByteDecodeError, ByteReader,
    SerializeToBytes,
};
use vstd::prelude::*;

verus! {

/// Main lexer rule set for the language
#[allow(missing_docs)]
#[derive(Debug, Clone, Copy, PartialEq, Eq, Structural, PartialOrd, Ord, Hash)]
pub enum Rule {
    EOI,
    SkippedEOL,
    Script,
    Block,
    CastExpr,
    DecoratorExpr,
    RangeExpr,
    IndexingExpr,
    DeleteExpr,
    AssignExpr,
    AssignArithmeticExpr,
    AssignBitwiseExpr,
    PrefixNeg,
    IndexingOperator,
    DecoratorOperator,
    FnCallOperator,
    TernaryOperator,
    ArithmethicInfixExpr,
    ArithmeticPrefixExpr,
    ArithmeticPostfixExpr,
    LogicalExpr,
    ComparisonExpr,
    MatchExpr,
    BitwiseInfixExpr,
    Array,
    Object,
    IfExpr,
    TernaryExpr,
    SwitchExpr,
    ForExpr,
    ReturnExpr,
    BreakExpr,
    ContinueExpr,
    FnCallExpr,
    FnAssignExpr,
    EOL,
    LParen,
    RParen,
    LBrace,
    RBrace,
    LBrack,
    RBrack,
    Comma,
    Dot,
    Colon,
    Question,
    FatArrow,
    Range,
    Decorator,
    Assign,
    AssignAdd,
    AssignSub,
    AssignPow,
    AssignMul,
    AssignDiv,
    AssignMod,
    AssignOr,
    AssignAnd,
    AssignXor,
    AssignSL,
    AssignSR,
    DocBlockComment,
    LineComment,
    BlockComment,
    Add,
    Sub,
    Pow,
    Mul,
    Div,
    Mod,
    BitwiseNot,
    BitwiseOr,
    BitwiseAnd,
    Xor,
    SL,
    SR,
    LogicalOr,
    LogicalAnd,
    LogicalNot,
    SEq,
    SNe,
    Eq,
    Ne,
    Le,
    Ge,
    Lt,
    Gt,
    If,
    Then,
    Else,
    For,
    In,
    Do,
    Where,
    Switch,
    Return,
    Continue,
    Break,
    Delete,
    As,
    Contains,
    Matches,
    StartsWith,
    EndsWith,
    Reference,
    LiteralConstPi,
    LiteralConstE,
    LiteralConstTau,
    LiteralConstNil,
    LiteralConstTrue,
    LiteralConstFalse,
    LiteralIdent,
    LiteralRadix,
    LiteralInt,
    LiteralSuffixedCurrency,
    LiteralPrefixedCurrency,
    LiteralFloat,
    LiteralRegex,
    LiteralString,
    Error,
}

/// Number of rules; every index below it names exactly one rule
pub const RULE_COUNT: u16 = 120;

/// The position of a rule in the rule set, which is its number in encodings
pub open spec fn rule_index(rule: Rule) -> nat {
    match rule {
        Rule::EOI => 0,
        Rule::SkippedEOL => 1,
        Rule::Script => 2,
        Rule::Block => 3,
        Rule::CastExpr => 4,
        Rule::DecoratorExpr => 5,
        Rule::RangeExpr => 6,
        Rule::IndexingExpr => 7,
        Rule::DeleteExpr => 8,
        Rule::AssignExpr => 9,
        Rule::AssignArithmeticExpr => 10,
        Rule::AssignBitwiseExpr => 11,
        Rule::PrefixNeg => 12,
        Rule::IndexingOperator => 13,
        Rule::DecoratorOperator => 14,
        Rule::FnCallOperator => 15,
        Rule::TernaryOperator => 16,
        Rule::ArithmethicInfixExpr => 17,
        Rule::ArithmeticPrefixExpr => 18,
        Rule::ArithmeticPostfixExpr => 19,
        Rule::LogicalExpr => 20,
        Rule::ComparisonExpr => 21,
        Rule::MatchExpr => 22,
        Rule::BitwiseInfixExpr => 23,
        Rule::Array => 24,
        Rule::Object => 25,
        Rule::IfExpr => 26,
        Rule::TernaryExpr => 27,
        Rule::SwitchExpr => 28,
        Rule::ForExpr => 29,
        Rule::ReturnExpr => 30,
        Rule::BreakExpr => 31,
        Rule::ContinueExpr => 32,
        Rule::FnCallExpr => 33,
        Rule::FnAssignExpr => 34,
        Rule::EOL => 35,
        Rule::LParen => 36,
        Rule::RParen => 37,
        Rule::LBrace => 38,
        Rule::RBrace => 39,
        Rule::LBrack => 40,
        Rule::RBrack => 41,
        Rule::Comma => 42,
        Rule::Dot => 43,
        Rule::Colon => 44,
        Rule::Question => 45,
        Rule::FatArrow => 46,
        Rule::Range => 47,
        Rule::Decorator => 48,
        Rule::Assign => 49,
        Rule::AssignAdd => 50,
        Rule::AssignSub => 51,
        Rule::AssignPow => 52,
        Rule::AssignMul => 53,
        Rule::AssignDiv => 54,
        Rule::AssignMod => 55,
        Rule::AssignOr => 56,
        Rule::AssignAnd => 57,
        Rule::AssignXor => 58,
        Rule::AssignSL => 59,
        Rule::AssignSR => 60,
        Rule::DocBlockComment => 61,
        Rule::LineComment => 62,
        Rule::BlockComment => 63,
        Rule::Add => 64,
        Rule::Sub => 65,
        Rule::Pow => 66,
        Rule::Mul => 67,
        Rule::Div => 68,
        Rule::Mod => 69,
        Rule::BitwiseNot => 70,
        Rule::BitwiseOr => 71,
        Rule::BitwiseAnd => 72,
        Rule::Xor => 73,
        Rule::SL => 74,
        Rule::SR => 75,
        Rule::LogicalOr => 76,
        Rule::LogicalAnd => 77,
        Rule::LogicalNot => 78,
        Rule::SEq => 79,
        Rule::SNe => 80,
        Rule::Eq => 81,
        Rule::Ne => 82,
        Rule::Le => 83,
        Rule::Ge => 84,
        Rule::Lt => 85,
        Rule::Gt => 86,
        Rule::If => 87,
        Rule::Then => 88,
        Rule::Else => 89,
        Rule::For => 90,
        Rule::In => 91,
        Rule::Do => 92,
        Rule::Where => 93,
        Rule::Switch => 94,
        Rule::Return => 95,
        Rule::Continue => 96,
        Rule::Break => 97,
        Rule::Delete => 98,
        Rule::As => 99,
        Rule::Contains => 100,
        Rule::Matches => 101,
        Rule::StartsWith => 102,
        Rule::EndsWith => 103,
        Rule::Reference => 104,
        Rule::LiteralConstPi => 105,
        Rule::LiteralConstE => 106,
        Rule::LiteralConstTau => 107,
        Rule::LiteralConstNil => 108,
        Rule::LiteralConstTrue => 109,
        Rule::LiteralConstFalse => 110,
        Rule::LiteralIdent => 111,
        Rule::LiteralRadix => 112,
        Rule::LiteralInt => 113,
        Rule::LiteralSuffixedCurrency => 114,
        Rule::LiteralPrefixedCurrency => 115,
        Rule::LiteralFloat => 116,
        Rule::LiteralRegex => 117,
        Rule::LiteralString => 118,
        Rule::Error => 119,
    }
}

/// The rule at a position in the rule set
pub open spec fn rule_at(index: nat) -> Option<Rule> {
    if index == 0 { Some(Rule::EOI) } else
    if index == 1 { Some(Rule::SkippedEOL) } else
    if index == 2 { Some(Rule::Script) } else
    if index == 3 { Some(Rule::Block) } else
    if index == 4 { Some(Rule::CastExpr) } else
    if index == 5 { Some(Rule::DecoratorExpr) } else
    if index == 6 { Some(Rule::RangeExpr) } else
    if index == 7 { Some(Rule::IndexingExpr) } else
    if index == 8 { Some(Rule::DeleteExpr) } else
    if index == 9 { Some(Rule::AssignExpr) } else
    if index == 10 { Some(Rule::AssignArithmeticExpr) } else
    if index == 11 { Some(Rule::AssignBitwiseExpr) } else
    if index == 12 { Some(Rule::PrefixNeg) } else
    if index == 13 { Some(Rule::IndexingOperator) } else
    if index == 14 { Some(Rule::DecoratorOperator) } else
    if index == 15 { Some(Rule::FnCallOperator) } else
    if index == 16 { Some(Rule::TernaryOperator) } else
    if index == 17 { Some(Rule::ArithmethicInfixExpr) } else
    if index == 18 { Some(Rule::ArithmeticPrefixExpr) } else
    if index == 19 { Some(Rule::ArithmeticPostfixExpr) } else
    if index == 20 { Some(Rule::LogicalExpr) } else
    if index == 21 { Some(Rule::ComparisonExpr) } else
    if index == 22 { Some(Rule::MatchExpr) } else
    if index == 23 { Some(Rule::BitwiseInfixExpr) } else
    if index == 24 { Some(Rule::Array) } else
    if index == 25 { Some(Rule::Object) } else
    if index == 26 { Some(Rule::IfExpr) } else
    if index == 27 { Some(Rule::TernaryExpr) } else
    if index == 28 { Some(Rule::SwitchExpr) } else
    if index == 29 { Some(Rule::ForExpr) } else
    if index == 30 { Some(Rule::ReturnExpr) } else
    if index == 31 { Some(Rule::BreakExpr) } else
    if index == 32 { Some(Rule::ContinueExpr) } else
    if index == 33 { Some(Rule::FnCallExpr) } else
    if index == 34 { Some(Rule::FnAssignExpr) } else
    if index == 35 { Some(Rule::EOL) } else
    if index == 36 { Some(Rule::LParen) } else
    if index == 37 { Some(Rule::RParen) } else
    if index == 38 { Some(Rule::LBrace) } else
    if index == 39 { Some(Rule::RBrace) } else
    if index == 40 { Some(Rule::LBrack) } else
    if index == 41 { Some(Rule::RBrack) } else
    if index == 42 { Some(Rule::Comma) } else
    if index == 43 { Some(Rule::Dot) } else
    if index == 44 { Some(Rule::Colon) } else
    if index == 45 { Some(Rule::Question) } else
    if index == 46 { Some(Rule::FatArrow) } else
    if index == 47 { Some(Rule::Range) } else
    if index == 48 { Some(Rule::Decorator) } else
    if index == 49 { Some(Rule::Assign) } else
    if index == 50 { Some(Rule::AssignAdd) } else
    if index == 51 { Some(Rule::AssignSub) } else
    if index == 52 { Some(Rule::AssignPow) } else
    if index == 53 { Some(Rule::AssignMul) } else
    if index == 54 { Some(Rule::AssignDiv) } else
    if index == 55 { Some(Rule::AssignMod) } else
    if index == 56 { Some(Rule::AssignOr) } else
    if index == 57 { Some(Rule::AssignAnd) } else
    if index == 58 { Some(Rule::AssignXor) } else
    if index == 59 { Some(Rule::AssignSL) } else
    if index == 60 { Some(Rule::AssignSR) } else
    if index == 61 { Some(Rule::DocBlockComment) } else
    if index == 62 { Some(Rule::LineComment) } else
    if index == 63 { Some(Rule::BlockComment) } else
    if index == 64 { Some(Rule::Add) } else
    if index == 65 { Some(Rule::Sub) } else
    if index == 66 { Some(Rule::Pow) } else
    if index == 67 { Some(Rule::Mul) } else
    if index == 68 { Some(Rule::Div) } else
    if index == 69 { Some(Rule::Mod) } else
    if index == 70 { Some(Rule::BitwiseNot) } else
    if index == 71 { Some(Rule::BitwiseOr) } else
    if index == 72 { Some(Rule::BitwiseAnd) } else
    if index == 73 { Some(Rule::Xor) } else
    if index == 74 { Some(Rule::SL) } else
    if index == 75 { Some(Rule::SR) } else
    if index == 76 { Some(Rule::LogicalOr) } else
    if index == 77 { Some(Rule::LogicalAnd) } else
    if index == 78 { Some(Rule::LogicalNot) } else
    if index == 79 { Some(Rule::SEq) } else
    if index == 80 { Some(Rule::SNe) } else
    if index == 81 { Some(Rule::Eq) } else
    if index == 82 { Some(Rule::Ne) } else
    if index == 83 { Some(Rule::Le) } else
    if index == 84 { Some(Rule::Ge) } else
    if index == 85 { Some(Rule::Lt) } else
    if index == 86 { Some(Rule::Gt) } else
    if index == 87 { Some(Rule::If) } else
    if index == 88 { Some(Rule::Then) } else
    if index == 89 { Some(Rule::Else) } else
    if index == 90 { Some(Rule::For) } else
    if index == 91 { Some(Rule::In) } else
    if index == 92 { Some(Rule::Do) } else
    if index == 93 { Some(Rule::Where) } else
    if index == 94 { Some(Rule::Switch) } else
    if index == 95 { Some(Rule::Return) } else
    if index == 96 { Some(Rule::Continue) } else
    if index == 97 { Some(Rule::Break) } else
    if index == 98 { Some(Rule::Delete) } else
    if index == 99 { Some(Rule::As) } else
    if index == 100 { Some(Rule::Contains) } else
    if index == 101 { Some(Rule::Matches) } else
    if index == 102 { Some(Rule::StartsWith) } else
    if index == 103 { Some(Rule::EndsWith) } else
    if index == 104 { Some(Rule::Reference) } else
    if index == 105 { Some(Rule::LiteralConstPi) } else
    if index == 106 { Some(Rule::LiteralConstE) } else
    if index == 107 { Some(Rule::LiteralConstTau) } else
    if index == 108 { Some(Rule::LiteralConstNil) } else
    if index == 109 { Some(Rule::LiteralConstTrue) } else
    if index == 110 { Some(Rule::LiteralConstFalse) } else
    if index == 111 { Some(Rule::LiteralIdent) } else
    if index == 112 { Some(Rule::LiteralRadix) } else
    if index == 113 { Some(Rule::LiteralInt) } else
    if index == 114 { Some(Rule::LiteralSuffixedCurrency) } else
    if index == 115 { Some(Rule::LiteralPrefixedCurrency) } else
    if index == 116 { Some(Rule::LiteralFloat) } else
    if index == 117 { Some(Rule::LiteralRegex) } else
    if index == 118 { Some(Rule::LiteralString) } else
    if index == 119 { Some(Rule::Error) } else { None }
}

/// The text a rule is displayed as
pub open spec fn rule_label(rule: Rule) -> Seq<char> {
    match rule {
        Rule::EOI => "end of input"@,
        Rule::SkippedEOL => "SkippedEOL"@,
        Rule::Script => "Script"@,
        Rule::Block => "Block"@,
        Rule::CastExpr => "[expression] as [type]"@,
        Rule::DecoratorExpr => "[expression] @[decorator]"@,
        Rule::RangeExpr => "RangeExpr"@,
        Rule::IndexingExpr => "IndexingExpr"@,
        Rule::DeleteExpr => "DeleteExpr"@,
        Rule::AssignExpr => "AssignExpr"@,
        Rule::AssignArithmeticExpr => "AssignArithmeticExpr"@,
        Rule::AssignBitwiseExpr => "AssignBitwiseExpr"@,
        Rule::PrefixNeg => "PrefixNeg"@,
        Rule::IndexingOperator => "IndexingOperator"@,
        Rule::DecoratorOperator => "DecoratorOperator"@,
        Rule::FnCallOperator => "FnCallOperator"@,
        Rule::TernaryOperator => "TernaryOperator"@,
        Rule::ArithmethicInfixExpr => "ArithmethicInfixExpr"@,
        Rule::ArithmeticPrefixExpr => "ArithmeticPrefixExpr"@,
        Rule::ArithmeticPostfixExpr => "ArithmeticPostfixExpr"@,
        Rule::LogicalExpr => "LogicalExpr"@,
        Rule::ComparisonExpr => "ComparisonExpr"@,
        Rule::MatchExpr => "MatchExpr"@,
        Rule::BitwiseInfixExpr => "BitwiseInfixExpr"@,
        Rule::Array => "Array"@,
        Rule::Object => "Object"@,
        Rule::IfExpr => "IfExpr"@,
        Rule::TernaryExpr => "TernaryExpr"@,
        Rule::SwitchExpr => "SwitchExpr"@,
        Rule::ForExpr => "ForExpr"@,
        Rule::ReturnExpr => "ReturnExpr"@,
        Rule::BreakExpr => "BreakExpr"@,
        Rule::ContinueExpr => "ContinueExpr"@,
        Rule::FnCallExpr => "FnCallExpr"@,
        Rule::FnAssignExpr => "FnAssignExpr"@,
        Rule::EOL => "end of line"@,
        Rule::LParen => "("@,
        Rule::RParen => ")"@,
        Rule::LBrace => "{"@,
        Rule::RBrace => "}"@,
        Rule::LBrack => "["@,
        Rule::RBrack => "]"@,
        Rule::Comma => ","@,
        Rule::Dot => "."@,
        Rule::Colon => ":"@,
        Rule::Question => "?"@,
        Rule::FatArrow => "=>"@,
        Rule::Range => ".."@,
        Rule::Decorator => "@"@,
        Rule::Assign => "="@,
        Rule::AssignAdd => "+="@,
        Rule::AssignSub => "-="@,
        Rule::AssignPow => "**="@,
        Rule::AssignMul => "*="@,
        Rule::AssignDiv => "/="@,
        Rule::AssignMod => "%="@,
        Rule::AssignOr => "|="@,
        Rule::AssignAnd => "&="@,
        Rule::AssignXor => "^="@,
        Rule::AssignSL => "<<="@,
        Rule::AssignSR => ">>="@,
        Rule::DocBlockComment => "DocBlockComment"@,
        Rule::LineComment => "LineComment"@,
        Rule::BlockComment => "BlockComment"@,
        Rule::Add => "+"@,
        Rule::Sub => "-"@,
        Rule::Pow => "**"@,
        Rule::Mul => "*"@,
        Rule::Div => "/"@,
        Rule::Mod => "%"@,
        Rule::BitwiseNot => "~"@,
        Rule::BitwiseOr => "|"@,
        Rule::BitwiseAnd => "&"@,
        Rule::Xor => "^"@,
        Rule::SL => "<<"@,
        Rule::SR => ">>"@,
        Rule::LogicalOr => "||"@,
        Rule::LogicalAnd => "&&"@,
        Rule::LogicalNot => "!"@,
        Rule::SEq => "==="@,
        Rule::SNe => "!=="@,
        Rule::Eq => "=="@,
        Rule::Ne => "!="@,
        Rule::Le => "<="@,
        Rule::Ge => ">="@,
        Rule::Lt => "<"@,
        Rule::Gt => ">"@,
        Rule::If => "if"@,
        Rule::Then => "then"@,
        Rule::Else => "else"@,
        Rule::For => "for"@,
        Rule::In => "in"@,
        Rule::Do => "do"@,
        Rule::Where => "where"@,
        Rule::Switch => "switch"@,
        Rule::Return => "return"@,
        Rule::Continue => "continue"@,
        Rule::Break => "break"@,
        Rule::Delete => "del"@,
        Rule::As => "as"@,
        Rule::Contains => "contains"@,
        Rule::Matches => "matches"@,
        Rule::StartsWith => "starts_with"@,
        Rule::EndsWith => "ends_with"@,
        Rule::Reference => "ref"@,
        Rule::LiteralConstPi => "LiteralConstPi"@,
        Rule::LiteralConstE => "LiteralConstE"@,
        Rule::LiteralConstTau => "LiteralConstTau"@,
        Rule::LiteralConstNil => "LiteralConstNil"@,
        Rule::LiteralConstTrue => "LiteralConstTrue"@,
        Rule::LiteralConstFalse => "LiteralConstFalse"@,
        Rule::LiteralIdent => "LiteralIdent"@,
        Rule::LiteralRadix => "LiteralRadix"@,
        Rule::LiteralInt => "LiteralInt"@,
        Rule::LiteralSuffixedCurrency => "LiteralSuffixedCurrency"@,
        Rule::LiteralPrefixedCurrency => "LiteralPrefixedCurrency"@,
        Rule::LiteralFloat => "LiteralFloat"@,
        Rule::LiteralRegex => "LiteralRegex"@,
        Rule::LiteralString => "LiteralString"@,
        Rule::Error => "Error"@,
    }
}

/// Every rule is found again at its position
pub proof fn lemma_rule_at_index(rule: Rule)
    ensures
        rule_index(rule) < RULE_COUNT,
        rule_at(rule_index(rule)) == Some(rule),
{
}

/// The positions of the rule set are exactly the numbers below the count
pub proof fn lemma_index_rule_at(index: nat)
    ensures
        rule_at(index) is Some <==> index < RULE_COUNT,
        rule_at(index) matches Some(r) ==> rule_index(r) == index,
{
}

impl Rule {
    /// The position of this rule in the rule set
    pub fn index(self) -> (n: u16)
        ensures
            n == rule_index(self),
    {
        match self {
            Rule::EOI => 0,
            Rule::SkippedEOL => 1,
            Rule::Script => 2,
            Rule::Block => 3,
            Rule::CastExpr => 4,
            Rule::DecoratorExpr => 5,
            Rule::RangeExpr => 6,
            Rule::IndexingExpr => 7,
            Rule::DeleteExpr => 8,
            Rule::AssignExpr => 9,
            Rule::AssignArithmeticExpr => 10,
            Rule::AssignBitwiseExpr => 11,
            Rule::PrefixNeg => 12,
            Rule::IndexingOperator => 13,
            Rule::DecoratorOperator => 14,
            Rule::FnCallOperator => 15,
            Rule::TernaryOperator => 16,
            Rule::ArithmethicInfixExpr => 17,
            Rule::ArithmeticPrefixExpr => 18,
            Rule::ArithmeticPostfixExpr => 19,
            Rule::LogicalExpr => 20,
            Rule::ComparisonExpr => 21,
            Rule::MatchExpr => 22,
            Rule::BitwiseInfixExpr => 23,
            Rule::Array => 24,
            Rule::Object => 25,
            Rule::IfExpr => 26,
            Rule::TernaryExpr => 27,
            Rule::SwitchExpr => 28,
            Rule::ForExpr => 29,
            Rule::ReturnExpr => 30,
            Rule::BreakExpr => 31,
            Rule::ContinueExpr => 32,
            Rule::FnCallExpr => 33,
            Rule::FnAssignExpr => 34,
            Rule::EOL => 35,
            Rule::LParen => 36,
            Rule::RParen => 37,
            Rule::LBrace => 38,
            Rule::RBrace => 39,
            Rule::LBrack => 40,
            Rule::RBrack => 41,
            Rule::Comma => 42,
            Rule::Dot => 43,
            Rule::Colon => 44,
            Rule::Question => 45,
            Rule::FatArrow => 46,
            Rule::Range => 47,
            Rule::Decorator => 48,
            Rule::Assign => 49,
            Rule::AssignAdd => 50,
            Rule::AssignSub => 51,
            Rule::AssignPow => 52,
            Rule::AssignMul => 53,
            Rule::AssignDiv => 54,
            Rule::AssignMod => 55,
            Rule::AssignOr => 56,
            Rule::AssignAnd => 57,
            Rule::AssignXor => 58,
            Rule::AssignSL => 59,
            Rule::AssignSR => 60,
            Rule::DocBlockComment => 61,
            Rule::LineComment => 62,
            Rule::BlockComment => 63,
            Rule::Add => 64,
            Rule::Sub => 65,
            Rule::Pow => 66,
            Rule::Mul => 67,
            Rule::Div => 68,
            Rule::Mod => 69,
            Rule::BitwiseNot => 70,
            Rule::BitwiseOr => 71,
            Rule::BitwiseAnd => 72,
            Rule::Xor => 73,
            Rule::SL => 74,
            Rule::SR => 75,
            Rule::LogicalOr => 76,
            Rule::LogicalAnd => 77,
            Rule::LogicalNot => 78,
            Rule::SEq => 79,
            Rule::SNe => 80,
            Rule::Eq => 81,
            Rule::Ne => 82,
            Rule::Le => 83,
            Rule::Ge => 84,
            Rule::Lt => 85,
            Rule::Gt => 86,
            Rule::If => 87,
            Rule::Then => 88,
            Rule::Else => 89,
            Rule::For => 90,
            Rule::In => 91,
            Rule::Do => 92,
            Rule::Where => 93,
            Rule::Switch => 94,
            Rule::Return => 95,
            Rule::Continue => 96,
            Rule::Break => 97,
            Rule::Delete => 98,
            Rule::As => 99,
            Rule::Contains => 100,
            Rule::Matches => 101,
            Rule::StartsWith => 102,
            Rule::EndsWith => 103,
            Rule::Reference => 104,
            Rule::LiteralConstPi => 105,
            Rule::LiteralConstE => 106,
            Rule::LiteralConstTau => 107,
            Rule::LiteralConstNil => 108,
            Rule::LiteralConstTrue => 109,
            Rule::LiteralConstFalse => 110,
            Rule::LiteralIdent => 111,
            Rule::LiteralRadix => 112,
            Rule::LiteralInt => 113,
            Rule::LiteralSuffixedCurrency => 114,
            Rule::LiteralPrefixedCurrency => 115,
            Rule::LiteralFloat => 116,
            Rule::LiteralRegex => 117,
            Rule::LiteralString => 118,
            Rule::Error => 119,
        }
    }

    /// The rule at a position of the rule set, if there is one
    pub fn from_index(n: u16) -> (r: Option<Rule>)
        ensures
            r == rule_at(n as nat),
    {
        match n {
            0 => Some(Rule::EOI),
            1 => Some(Rule::SkippedEOL),
            2 => Some(Rule::Script),
            3 => Some(Rule::Block),
            4 => Some(Rule::CastExpr),
            5 => Some(Rule::DecoratorExpr),
            6 => Some(Rule::RangeExpr),
            7 => Some(Rule::IndexingExpr),
            8 => Some(Rule::DeleteExpr),
            9 => Some(Rule::AssignExpr),
            10 => Some(Rule::AssignArithmeticExpr),
            11 => Some(Rule::AssignBitwiseExpr),
            12 => Some(Rule::PrefixNeg),
            13 => Some(Rule::IndexingOperator),
            14 => Some(Rule::DecoratorOperator),
            15 => Some(Rule::FnCallOperator),
            16 => Some(Rule::TernaryOperator),
            17 => Some(Rule::ArithmethicInfixExpr),
            18 => Some(Rule::ArithmeticPrefixExpr),
            19 => Some(Rule::ArithmeticPostfixExpr),
            20 => Some(Rule::LogicalExpr),
            21 => Some(Rule::ComparisonExpr),
            22 => Some(Rule::MatchExpr),
            23 => Some(Rule::BitwiseInfixExpr),
            24 => Some(Rule::Array),
            25 => Some(Rule::Object),
            26 => Some(Rule::IfExpr),
            27 => Some(Rule::TernaryExpr),
            28 => Some(Rule::SwitchExpr),
            29 => Some(Rule::ForExpr),
            30 => Some(Rule::ReturnExpr),
            31 => Some(Rule::BreakExpr),
            32 => Some(Rule::ContinueExpr),
            33 => Some(Rule::FnCallExpr),
            34 => Some(Rule::FnAssignExpr),
            35 => Some(Rule::EOL),
            36 => Some(Rule::LParen),
            37 => Some(Rule::RParen),
            38 => Some(Rule::LBrace),
            39 => Some(Rule::RBrace),
            40 => Some(Rule::LBrack),
            41 => Some(Rule::RBrack),
            42 => Some(Rule::Comma),
            43 => Some(Rule::Dot),
            44 => Some(Rule::Colon),
            45 => Some(Rule::Question),
            46 => Some(Rule::FatArrow),
            47 => Some(Rule::Range),
            48 => Some(Rule::Decorator),
            49 => Some(Rule::Assign),
            50 => Some(Rule::AssignAdd),
            51 => Some(Rule::AssignSub),
            52 => Some(Rule::AssignPow),
            53 => Some(Rule::AssignMul),
            54 => Some(Rule::AssignDiv),
            55 => Some(Rule::AssignMod),
            56 => Some(Rule::AssignOr),
            57 => Some(Rule::AssignAnd),
            58 => Some(Rule::AssignXor),
            59 => Some(Rule::AssignSL),
            60 => Some(Rule::AssignSR),
            61 => Some(Rule::DocBlockComment),
            62 => Some(Rule::LineComment),
            63 => Some(Rule::BlockComment),
            64 => Some(Rule::Add),
            65 => Some(Rule::Sub),
            66 => Some(Rule::Pow),
            67 => Some(Rule::Mul),
            68 => Some(Rule::Div),
            69 => Some(Rule::Mod),
            70 => Some(Rule::BitwiseNot),
            71 => Some(Rule::BitwiseOr),
            72 => Some(Rule::BitwiseAnd),
            73 => Some(Rule::Xor),
            74 => Some(Rule::SL),
            75 => Some(Rule::SR),
            76 => Some(Rule::LogicalOr),
            77 => Some(Rule::LogicalAnd),
            78 => Some(Rule::LogicalNot),
            79 => Some(Rule::SEq),
            80 => Some(Rule::SNe),
            81 => Some(Rule::Eq),
            82 => Some(Rule::Ne),
            83 => Some(Rule::Le),
            84 => Some(Rule::Ge),
            85 => Some(Rule::Lt),
            86 => Some(Rule::Gt),
            87 => Some(Rule::If),
            88 => Some(Rule::Then),
            89 => Some(Rule::Else),
            90 => Some(Rule::For),
            91 => Some(Rule::In),
            92 => Some(Rule::Do),
            93 => Some(Rule::Where),
            94 => Some(Rule::Switch),
            95 => Some(Rule::Return),
            96 => Some(Rule::Continue),
            97 => Some(Rule::Break),
            98 => Some(Rule::Delete),
            99 => Some(Rule::As),
            100 => Some(Rule::Contains),
            101 => Some(Rule::Matches),
            102 => Some(Rule::StartsWith),
            103 => Some(Rule::EndsWith),
            104 => Some(Rule::Reference),
            105 => Some(Rule::LiteralConstPi),
            106 => Some(Rule::LiteralConstE),
            107 => Some(Rule::LiteralConstTau),
            108 => Some(Rule::LiteralConstNil),
            109 => Some(Rule::LiteralConstTrue),
            110 => Some(Rule::LiteralConstFalse),
            111 => Some(Rule::LiteralIdent),
            112 => Some(Rule::LiteralRadix),
            113 => Some(Rule::LiteralInt),
            114 => Some(Rule::LiteralSuffixedCurrency),
            115 => Some(Rule::LiteralPrefixedCurrency),
            116 => Some(Rule::LiteralFloat),
            117 => Some(Rule::LiteralRegex),
            118 => Some(Rule::LiteralString),
            119 => Some(Rule::Error),
            _ => None,
        }
    }

    /// The text this rule is displayed as
    pub fn to_string(&self) -> (s: String)
        ensures
            s@ == rule_label(*self),
    {
        let text: &str = match self {
            Rule::EOI => "end of input",
            Rule::SkippedEOL => "SkippedEOL",
            Rule::Script => "Script",
            Rule::Block => "Block",
            Rule::CastExpr => "[expression] as [type]",
            Rule::DecoratorExpr => "[expression] @[decorator]",
            Rule::RangeExpr => "RangeExpr",
            Rule::IndexingExpr => "IndexingExpr",
            Rule::DeleteExpr => "DeleteExpr",
            Rule::AssignExpr => "AssignExpr",
            Rule::AssignArithmeticExpr => "AssignArithmeticExpr",
            Rule::AssignBitwiseExpr => "AssignBitwiseExpr",
            Rule::PrefixNeg => "PrefixNeg",
            Rule::IndexingOperator => "IndexingOperator",
            Rule::DecoratorOperator => "DecoratorOperator",
            Rule::FnCallOperator => "FnCallOperator",
            Rule::TernaryOperator => "TernaryOperator",
            Rule::ArithmethicInfixExpr => "ArithmethicInfixExpr",
            Rule::ArithmeticPrefixExpr => "ArithmeticPrefixExpr",
            Rule::ArithmeticPostfixExpr => "ArithmeticPostfixExpr",
            Rule::LogicalExpr => "LogicalExpr",
            Rule::ComparisonExpr => "ComparisonExpr",
            Rule::MatchExpr => "MatchExpr",
            Rule::BitwiseInfixExpr => "BitwiseInfixExpr",
            Rule::Array => "Array",
            Rule::Object => "Object",
            Rule::IfExpr => "IfExpr",
            Rule::TernaryExpr => "TernaryExpr",
            Rule::SwitchExpr => "SwitchExpr",
            Rule::ForExpr => "ForExpr",
            Rule::ReturnExpr => "ReturnExpr",
            Rule::BreakExpr => "BreakExpr",
            Rule::ContinueExpr => "ContinueExpr",
            Rule::FnCallExpr => "FnCallExpr",
            Rule::FnAssignExpr => "FnAssignExpr",
            Rule::EOL => "end of line",
            Rule::LParen => "(",
            Rule::RParen => ")",
            Rule::LBrace => "{",
            Rule::RBrace => "}",
            Rule::LBrack => "[",
            Rule::RBrack => "]",
            Rule::Comma => ",",
            Rule::Dot => ".",
            Rule::Colon => ":",
            Rule::Question => "?",
            Rule::FatArrow => "=>",
            Rule::Range => "..",
            Rule::Decorator => "@",
            Rule::Assign => "=",
            Rule::AssignAdd => "+=",
            Rule::AssignSub => "-=",
            Rule::AssignPow => "**=",
            Rule::AssignMul => "*=",
            Rule::AssignDiv => "/=",
            Rule::AssignMod => "%=",
            Rule::AssignOr => "|=",
            Rule::AssignAnd => "&=",
            Rule::AssignXor => "^=",
            Rule::AssignSL => "<<=",
            Rule::AssignSR => ">>=",
            Rule::DocBlockComment => "DocBlockComment",
            Rule::LineComment => "LineComment",
            Rule::BlockComment => "BlockComment",
            Rule::Add => "+",
            Rule::Sub => "-",
            Rule::Pow => "**",
            Rule::Mul => "*",
            Rule::Div => "/",
            Rule::Mod => "%",
            Rule::BitwiseNot => "~",
            Rule::BitwiseOr => "|",
            Rule::BitwiseAnd => "&",
            Rule::Xor => "^",
            Rule::SL => "<<",
            Rule::SR => ">>",
            Rule::LogicalOr => "||",
            Rule::LogicalAnd => "&&",
            Rule::LogicalNot => "!",
            Rule::SEq => "===",
            Rule::SNe => "!==",
            Rule::Eq => "==",
            Rule::Ne => "!=",
            Rule::Le => "<=",
            Rule::Ge => ">=",
            Rule::Lt => "<",
            Rule::Gt => ">",
            Rule::If => "if",
            Rule::Then => "then",
            Rule::Else => "else",
            Rule::For => "for",
            Rule::In => "in",
            Rule::Do => "do",
            Rule::Where => "where",
            Rule::Switch => "switch",
            Rule::Return => "return",
            Rule::Continue => "continue",
            Rule::Break => "break",
            Rule::Delete => "del",
            Rule::As => "as",
            Rule::Contains => "contains",
            Rule::Matches => "matches",
            Rule::StartsWith => "starts_with",
            Rule::EndsWith => "ends_with",
            Rule::Reference => "ref",
            Rule::LiteralConstPi => "LiteralConstPi",
            Rule::LiteralConstE => "LiteralConstE",
            Rule::LiteralConstTau => "LiteralConstTau",
            Rule::LiteralConstNil => "LiteralConstNil",
            Rule::LiteralConstTrue => "LiteralConstTrue",
            Rule::LiteralConstFalse => "LiteralConstFalse",
            Rule::LiteralIdent => "LiteralIdent",
            Rule::LiteralRadix => "LiteralRadix",
            Rule::LiteralInt => "LiteralInt",
            Rule::LiteralSuffixedCurrency => "LiteralSuffixedCurrency",
            Rule::LiteralPrefixedCurrency => "LiteralPrefixedCurrency",
            Rule::LiteralFloat => "LiteralFloat",
            Rule::LiteralRegex => "LiteralRegex",
            Rule::LiteralString => "LiteralString",
            Rule::Error => "Error",
        };
        String::from_str(text)
    }
}

impl SerializeToBytes for Rule {
    open spec fn encoding(&self) -> Seq<u8> {
        be_encode(rule_index(*self), 2)
    }

    open spec fn encodable(&self) -> bool {
        true
    }

    proof fn lemma_prefix_free(a: Self, b: Self, r1: Seq<u8>, r2: Seq<u8>) {
        lemma_pow256_values();
        lemma_rule_at_index(a);
        lemma_rule_at_index(b);
        lemma_fixed_prefix(rule_index(a), rule_index(b), 2, r1, r2);
    }

    fn serialize_into_bytes(self) -> (bytes: Vec<u8>) {
        self.index().serialize_into_bytes()
    }

    /// A number beyond the rule set is malformed data
    fn deserialize_from_bytes(bytes: &mut ByteReader) -> (r: Result<Self, ByteDecodeError>)
        ensures
            old(bytes).rest().len() < 2 ==> r == Err::<Rule, ByteDecodeError>(
                ByteDecodeError::UnexpectedEnd,
            ),
            old(bytes).rest().len() >= 2 && be_decode(old(bytes).rest().take(2)) >= RULE_COUNT
                ==> r is Err,
            forall|v: Rule, tail: Seq<u8>|
                old(bytes).rest() == #[trigger] (v.encoding() + tail) ==> r == Ok::<
                    Rule,
                    ByteDecodeError,
                >(v) && final(bytes).rest() == tail,
    {
        let ghost start = bytes.rest();
        let n = match u16::deserialize_from_bytes(bytes) {
            Ok(n) => n,
            Err(e) => {
                proof {
                    assert forall|v: Rule, tail: Seq<u8>| start == #[trigger] (v.encoding() + tail) implies false by {
                        lemma_rule_at_index(v);
                        let w = rule_index(v) as u16;
                        assert(start == w.encoding() + tail);
                    }
                }
                return Err(e);
            },
        };
        proof {
            lemma_pow256_values();
            lemma_take_encoded(n as nat, 2, bytes.rest());
            assert forall|v: Rule, tail: Seq<u8>| start == #[trigger] (v.encoding() + tail) implies (
            n as nat) == rule_index(v) && bytes.rest() == tail by {
                lemma_rule_at_index(v);
                lemma_fixed_prefix(n as nat, rule_index(v), 2, bytes.rest(), tail);
            }
        }
        match Rule::from_index(n) {
            Some(rule) => {
                proof {
                    lemma_index_rule_at(n as nat);
                }
                Ok(rule)
            },
            None => {
                proof {
                    lemma_index_rule_at(n as nat);
                    assert forall|v: Rule, tail: Seq<u8>| start == #[trigger] (v.encoding() + tail) implies false by {
                        lemma_rule_at_index(v);
                    }
                }
                Err(ByteDecodeError::MalformedData(String::from_str("Rule: no rule with this ID")))
            },
        }
    }
}

} // verus!
