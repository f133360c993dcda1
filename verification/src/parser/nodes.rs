//! The nodes of the syntax tree that expressions are folded into: literal
//! terms, the operators that wait for their operands, and the expressions
//! that operators build.
use crate::lexer::rule::Rule;
use crate::lexer::token::{Token, TokenSpan, TokenView};
use crate::parser::error::{error_token, ParserError};
use crate::parser::ops::{ArithmeticOp, BitwiseOp, ComparisonOp, LogicalOp};
use crate::value::{Primitive, ValueType};
use vstd::prelude::*;

verus! {

/// A node of the syntax tree
#[derive(Debug)]
pub enum Node {
    /// A string literal
    LiteralString { value: Primitive, token: Token },
    /// An integer literal
    LiteralInt { value: Primitive, token: Token },
    /// A decimal or currency literal
    LiteralFloat { value: Primitive, token: Token },
    /// A boolean literal
    LiteralBool { value: Primitive, token: Token },
    /// An identifier
    LiteralIdent { token: Token },
    /// A prefix operator, waiting for its operand
    PrefixOperator { token: Token },
    /// An infix operator, waiting for its operands; a ternary operator holds
    /// the expression between its `?` and `:`
    InfixOperator { inner: Option<Box<Node>>, token: Token },
    /// Indexing brackets, waiting for what they index
    PostfixIndexingOperator { path: Vec<Node>, token: Token },
    /// A call's arguments, waiting for what is called; a method call also
    /// holds the span of the method's name
    PostfixFnCallOperator { name_span: Option<TokenSpan>, args: Vec<Node>, token: Token },
    /// `EXPR (+, -, *, /, %, **) EXPR`
    ArithmeticInfixExpr { lhs: Box<Node>, op: ArithmeticOp, rhs: Box<Node>, token: Token },
    /// `- EXPR`
    ArithmeticPrefixExpr { rhs: Box<Node>, token: Token },
    /// `EXPR (|, &, ^, <<, >>) EXPR`
    BitwiseInfixExpr { lhs: Box<Node>, op: BitwiseOp, rhs: Box<Node>, token: Token },
    /// `~ EXPR`
    BitwiseNot { rhs: Box<Node>, token: Token },
    /// `EXPR (&&, ||) EXPR`
    LogicalExpr { lhs: Box<Node>, op: LogicalOp, rhs: Box<Node>, token: Token },
    /// `! EXPR`
    LogicalNot { rhs: Box<Node>, token: Token },
    /// `EXPR (==, !=, ===, !==, <, >, <=, >=) EXPR`
    ComparisonExpr { lhs: Box<Node>, op: ComparisonOp, rhs: Box<Node>, token: Token },
    /// `EXPR (matches, contains, startswith, endswith) EXPR`
    MatchExpr { lhs: Box<Node>, op: Rule, rhs: Box<Node>, token: Token },
    /// `EXPR = EXPR`
    AssignExpr { target: Box<Node>, value: Box<Node>, token: Token },
    /// `EXPR (+=, -=, *=, /=, %=, **=) EXPR`
    AssignArithmeticExpr { target: Box<Node>, value: Box<Node>, op: ArithmeticOp, token: Token },
    /// `EXPR (&=, |=, ^=, <<=, >>=) EXPR`
    AssignBitwiseExpr { target: Box<Node>, value: Box<Node>, op: BitwiseOp, token: Token },
    /// `del EXPR`
    DeleteExpr { target: Box<Node>, token: Token },
    /// `EXPR .. EXPR`
    RangeExpr { start: Box<Node>, end: Box<Node>, token: Token },
    /// `EXPR [EXPR] ...`
    IndexingExpr { base: Box<Node>, path: Vec<Node>, token: Token },
    /// `EXPR as TYPE`
    CastExpr { expr: Box<Node>, target_type: ValueType, token: Token },
    /// `EXPR @ NAME`
    DecoratorExpr { expr: Box<Node>, name_span: TokenSpan, token: Token },
    /// A call of the function named by `name_span` with `args`
    FnCall { name_span: TokenSpan, args: Vec<Node>, token: Token },
    /// `if EXPR then BLOCK else BLOCK`, or `EXPR ? EXPR : EXPR`
    If { condition: Box<Node>, then_block: Box<Node>, else_block: Box<Node>, token: Token },
    /// A node that could not be built, with the reason
    Error(ParserError),
}

/// A node of the syntax tree, with the views of its tokens
pub enum NodeView {
    LiteralString { value: Primitive, token: TokenView },
    LiteralInt { value: Primitive, token: TokenView },
    LiteralFloat { value: Primitive, token: TokenView },
    LiteralBool { value: Primitive, token: TokenView },
    LiteralIdent { token: TokenView },
    PrefixOperator { token: TokenView },
    InfixOperator { inner: Option<Box<NodeView>>, token: TokenView },
    PostfixIndexingOperator { path: Seq<NodeView>, token: TokenView },
    PostfixFnCallOperator { name_span: Option<TokenSpan>, args: Seq<NodeView>, token: TokenView },
    ArithmeticInfixExpr { lhs: Box<NodeView>, op: ArithmeticOp, rhs: Box<NodeView>, token: TokenView },
    ArithmeticPrefixExpr { rhs: Box<NodeView>, token: TokenView },
    BitwiseInfixExpr { lhs: Box<NodeView>, op: BitwiseOp, rhs: Box<NodeView>, token: TokenView },
    BitwiseNot { rhs: Box<NodeView>, token: TokenView },
    LogicalExpr { lhs: Box<NodeView>, op: LogicalOp, rhs: Box<NodeView>, token: TokenView },
    LogicalNot { rhs: Box<NodeView>, token: TokenView },
    ComparisonExpr { lhs: Box<NodeView>, op: ComparisonOp, rhs: Box<NodeView>, token: TokenView },
    MatchExpr { lhs: Box<NodeView>, op: Rule, rhs: Box<NodeView>, token: TokenView },
    AssignExpr { target: Box<NodeView>, value: Box<NodeView>, token: TokenView },
    AssignArithmeticExpr { target: Box<NodeView>, value: Box<NodeView>, op: ArithmeticOp, token: TokenView },
    AssignBitwiseExpr { target: Box<NodeView>, value: Box<NodeView>, op: BitwiseOp, token: TokenView },
    DeleteExpr { target: Box<NodeView>, token: TokenView },
    RangeExpr { start: Box<NodeView>, end: Box<NodeView>, token: TokenView },
    IndexingExpr { base: Box<NodeView>, path: Seq<NodeView>, token: TokenView },
    CastExpr { expr: Box<NodeView>, target_type: ValueType, token: TokenView },
    DecoratorExpr { expr: Box<NodeView>, name_span: TokenSpan, token: TokenView },
    FnCall { name_span: TokenSpan, args: Seq<NodeView>, token: TokenView },
    If { condition: Box<NodeView>, then_block: Box<NodeView>, else_block: Box<NodeView>, token: TokenView },
    /// A node that could not be built: which error it is, and its token
    Error { kind: ErrorKind, token: TokenView },
}

/// The kinds of parser errors
pub enum ErrorKind {
    Syntax,
    InvalidLiteral,
    InvalidType,
    CannotCastToType,
    UnreachableSwitchCase,
    MissingDefaultCase,
    MissingElse,
    MustReturnAValue,
    AssignmentToConstant,
    NotADecorator,
    DecoratorSignature,
    TooManyArguments,
}

/// The kind of a parser error
pub open spec fn error_kind(e: ParserError) -> ErrorKind {
    match e {
        ParserError::Syntax { .. } => ErrorKind::Syntax,
        ParserError::InvalidLiteral(..) => ErrorKind::InvalidLiteral,
        ParserError::InvalidType(_) => ErrorKind::InvalidType,
        ParserError::CannotCastToType(_) => ErrorKind::CannotCastToType,
        ParserError::UnreachableSwitchCase(_) => ErrorKind::UnreachableSwitchCase,
        ParserError::MissingDefaultCase(_) => ErrorKind::MissingDefaultCase,
        ParserError::MissingElse(_) => ErrorKind::MissingElse,
        ParserError::MustReturnAValue(_) => ErrorKind::MustReturnAValue,
        ParserError::AssignmentToConstant(_) => ErrorKind::AssignmentToConstant,
        ParserError::NotADecorator(_) => ErrorKind::NotADecorator,
        ParserError::DecoratorSignature(_) => ErrorKind::DecoratorSignature,
        ParserError::TooManyArguments(_) => ErrorKind::TooManyArguments,
    }
}

/// The view of a node
pub open spec fn node_view(n: Node) -> NodeView
    decreases n,
{
    match n {
        Node::LiteralString { value, token } => NodeView::LiteralString { value, token: token@ },
        Node::LiteralInt { value, token } => NodeView::LiteralInt { value, token: token@ },
        Node::LiteralFloat { value, token } => NodeView::LiteralFloat { value, token: token@ },
        Node::LiteralBool { value, token } => NodeView::LiteralBool { value, token: token@ },
        Node::LiteralIdent { token } => NodeView::LiteralIdent { token: token@ },
        Node::PrefixOperator { token } => NodeView::PrefixOperator { token: token@ },
        Node::InfixOperator { inner, token } => NodeView::InfixOperator {
            inner: match inner {
                Some(i) => Some(Box::new(node_view(*i))),
                None => None,
            },
            token: token@,
        },
        Node::PostfixIndexingOperator { path, token } => NodeView::PostfixIndexingOperator {
            path: nodes_view(path@),
            token: token@,
        },
        Node::PostfixFnCallOperator { name_span, args, token } => NodeView::PostfixFnCallOperator {
            name_span,
            args: nodes_view(args@),
            token: token@,
        },
        Node::ArithmeticInfixExpr { lhs, op, rhs, token } => NodeView::ArithmeticInfixExpr {
            lhs: Box::new(node_view(*lhs)),
            op,
            rhs: Box::new(node_view(*rhs)),
            token: token@,
        },
        Node::ArithmeticPrefixExpr { rhs, token } => NodeView::ArithmeticPrefixExpr {
            rhs: Box::new(node_view(*rhs)),
            token: token@,
        },
        Node::BitwiseInfixExpr { lhs, op, rhs, token } => NodeView::BitwiseInfixExpr {
            lhs: Box::new(node_view(*lhs)),
            op,
            rhs: Box::new(node_view(*rhs)),
            token: token@,
        },
        Node::BitwiseNot { rhs, token } => NodeView::BitwiseNot { rhs: Box::new(node_view(*rhs)), token: token@ },
        Node::LogicalExpr { lhs, op, rhs, token } => NodeView::LogicalExpr {
            lhs: Box::new(node_view(*lhs)),
            op,
            rhs: Box::new(node_view(*rhs)),
            token: token@,
        },
        Node::LogicalNot { rhs, token } => NodeView::LogicalNot { rhs: Box::new(node_view(*rhs)), token: token@ },
        Node::ComparisonExpr { lhs, op, rhs, token } => NodeView::ComparisonExpr {
            lhs: Box::new(node_view(*lhs)),
            op,
            rhs: Box::new(node_view(*rhs)),
            token: token@,
        },
        Node::MatchExpr { lhs, op, rhs, token } => NodeView::MatchExpr {
            lhs: Box::new(node_view(*lhs)),
            op,
            rhs: Box::new(node_view(*rhs)),
            token: token@,
        },
        Node::AssignExpr { target, value, token } => NodeView::AssignExpr {
            target: Box::new(node_view(*target)),
            value: Box::new(node_view(*value)),
            token: token@,
        },
        Node::AssignArithmeticExpr { target, value, op, token } => NodeView::AssignArithmeticExpr {
            target: Box::new(node_view(*target)),
            value: Box::new(node_view(*value)),
            op,
            token: token@,
        },
        Node::AssignBitwiseExpr { target, value, op, token } => NodeView::AssignBitwiseExpr {
            target: Box::new(node_view(*target)),
            value: Box::new(node_view(*value)),
            op,
            token: token@,
        },
        Node::DeleteExpr { target, token } => NodeView::DeleteExpr {
            target: Box::new(node_view(*target)),
            token: token@,
        },
        Node::RangeExpr { start, end, token } => NodeView::RangeExpr {
            start: Box::new(node_view(*start)),
            end: Box::new(node_view(*end)),
            token: token@,
        },
        Node::IndexingExpr { base, path, token } => NodeView::IndexingExpr {
            base: Box::new(node_view(*base)),
            path: nodes_view(path@),
            token: token@,
        },
        Node::CastExpr { expr, target_type, token } => NodeView::CastExpr {
            expr: Box::new(node_view(*expr)),
            target_type,
            token: token@,
        },
        Node::DecoratorExpr { expr, name_span, token } => NodeView::DecoratorExpr {
            expr: Box::new(node_view(*expr)),
            name_span,
            token: token@,
        },
        Node::FnCall { name_span, args, token } => NodeView::FnCall {
            name_span,
            args: nodes_view(args@),
            token: token@,
        },
        Node::If { condition, then_block, else_block, token } => NodeView::If {
            condition: Box::new(node_view(*condition)),
            then_block: Box::new(node_view(*then_block)),
            else_block: Box::new(node_view(*else_block)),
            token: token@,
        },
        Node::Error(e) => NodeView::Error { kind: error_kind(e), token: error_token(e)@ },
    }
}

/// The views of a run of nodes
pub open spec fn nodes_view(s: Seq<Node>) -> Seq<NodeView>
    decreases s,
{
    if s.len() == 0 {
        Seq::empty()
    } else {
        seq![node_view(s[0])] + nodes_view(s.subrange(1, s.len() as int))
    }
}

impl View for Node {
    type V = NodeView;

    open spec fn view(&self) -> NodeView {
        node_view(*self)
    }
}

/// The token of a node
pub open spec fn view_token(n: NodeView) -> TokenView {
    match n {
        NodeView::LiteralString { token, .. } => token,
        NodeView::LiteralInt { token, .. } => token,
        NodeView::LiteralFloat { token, .. } => token,
        NodeView::LiteralBool { token, .. } => token,
        NodeView::LiteralIdent { token } => token,
        NodeView::PrefixOperator { token } => token,
        NodeView::InfixOperator { token, .. } => token,
        NodeView::PostfixIndexingOperator { token, .. } => token,
        NodeView::PostfixFnCallOperator { token, .. } => token,
        NodeView::ArithmeticInfixExpr { token, .. } => token,
        NodeView::ArithmeticPrefixExpr { token, .. } => token,
        NodeView::BitwiseInfixExpr { token, .. } => token,
        NodeView::BitwiseNot { token, .. } => token,
        NodeView::LogicalExpr { token, .. } => token,
        NodeView::LogicalNot { token, .. } => token,
        NodeView::ComparisonExpr { token, .. } => token,
        NodeView::MatchExpr { token, .. } => token,
        NodeView::AssignExpr { token, .. } => token,
        NodeView::AssignArithmeticExpr { token, .. } => token,
        NodeView::AssignBitwiseExpr { token, .. } => token,
        NodeView::DeleteExpr { token, .. } => token,
        NodeView::RangeExpr { token, .. } => token,
        NodeView::IndexingExpr { token, .. } => token,
        NodeView::CastExpr { token, .. } => token,
        NodeView::DecoratorExpr { token, .. } => token,
        NodeView::FnCall { token, .. } => token,
        NodeView::If { token, .. } => token,
        NodeView::Error { token, .. } => token,
    }
}

impl Node {
    /// The name an identifier node stands for: the text of its token; none
    /// for any other node
    pub fn name(&self) -> (r: Option<&str>)
        requires
            self@ matches NodeView::LiteralIdent { token } ==> token.in_bounds(),
        ensures
            match self@ {
                NodeView::LiteralIdent { token } => r matches Some(s) && s@ == token.text(),
                _ => r is None,
            },
    {
        match self {
            Node::LiteralIdent { token } => Some(token.slice()),
            _ => None,
        }
    }

    /// The token the node was built from
    pub fn token(&self) -> (t: &Token)
        ensures
            t@ == view_token(self@),
    {
        match self {
            Node::LiteralString { token, .. } => token,
            Node::LiteralInt { token, .. } => token,
            Node::LiteralFloat { token, .. } => token,
            Node::LiteralBool { token, .. } => token,
            Node::LiteralIdent { token } => token,
            Node::PrefixOperator { token } => token,
            Node::InfixOperator { token, .. } => token,
            Node::PostfixIndexingOperator { token, .. } => token,
            Node::PostfixFnCallOperator { token, .. } => token,
            Node::ArithmeticInfixExpr { token, .. } => token,
            Node::ArithmeticPrefixExpr { token, .. } => token,
            Node::BitwiseInfixExpr { token, .. } => token,
            Node::BitwiseNot { token, .. } => token,
            Node::LogicalExpr { token, .. } => token,
            Node::LogicalNot { token, .. } => token,
            Node::ComparisonExpr { token, .. } => token,
            Node::MatchExpr { token, .. } => token,
            Node::AssignExpr { token, .. } => token,
            Node::AssignArithmeticExpr { token, .. } => token,
            Node::AssignBitwiseExpr { token, .. } => token,
            Node::DeleteExpr { token, .. } => token,
            Node::RangeExpr { token, .. } => token,
            Node::IndexingExpr { token, .. } => token,
            Node::CastExpr { token, .. } => token,
            Node::DecoratorExpr { token, .. } => token,
            Node::FnCall { token, .. } => token,
            Node::If { token, .. } => token,
            Node::Error(e) => e.token(),
        }
    }
}

} // verus!
