//! The Pratt parser: binding powers of the operators, and the folding of an
//! expression's terms and operators into a tree by them. A higher binding
//! power means a higher precedence.
use crate::lexer::rule::{rule_at, rule_index, Rule};
use crate::lexer::token::{TokenSpan, TokenView};
use crate::parser::error::ParserError;
use crate::parser::nodes::{nodes_view, view_token, ErrorKind, Node, NodeView};
use crate::parser::ops::{
    arithmetic_op_of, bitwise_op_of, comparison_op_of, logical_op_of, ArithmeticOp, BitwiseOp,
    ComparisonOp, LogicalOp,
};
use crate::value::types::type_from_name;
use crate::value::ValueType;
use vstd::prelude::*;

verus! {

/// The (left, right) binding power of an operator rule: an infix operator has
/// both, a prefix operator only a left one, a postfix operator only a right
/// one; other rules have none
pub open spec fn binding_power(rule: Rule) -> Option<(u8, u8)> {
    match rule {
        Rule::Assign | Rule::AssignAdd | Rule::AssignSub | Rule::AssignPow | Rule::AssignMod | Rule::AssignMul | Rule::AssignDiv | Rule::AssignAnd | Rule::AssignOr | Rule::AssignXor | Rule::AssignSL | Rule::AssignSR => Some((1, 2)),
        Rule::Delete => Some((3, 0)),
        Rule::Range => Some((3, 4)),
        Rule::TernaryOperator => Some((4, 5)),
        Rule::DecoratorOperator => Some((0, 6)),
        Rule::LogicalOr => Some((6, 7)),
        Rule::LogicalAnd => Some((7, 8)),
        Rule::Matches | Rule::Contains | Rule::StartsWith | Rule::EndsWith => Some((8, 9)),
        Rule::BitwiseOr => Some((9, 10)),
        Rule::Xor => Some((10, 11)),
        Rule::BitwiseAnd => Some((11, 12)),
        Rule::Eq | Rule::Ne | Rule::SEq | Rule::SNe => Some((12, 13)),
        Rule::Lt | Rule::Gt | Rule::Le | Rule::Ge => Some((13, 14)),
        Rule::SL | Rule::SR => Some((14, 15)),
        Rule::Add | Rule::Sub => Some((15, 16)),
        Rule::Mul | Rule::Div | Rule::Mod => Some((16, 17)),
        Rule::Pow => Some((17, 18)),
        Rule::PrefixNeg | Rule::BitwiseNot | Rule::LogicalNot => Some((19, 0)),
        Rule::FnCallOperator | Rule::IndexingOperator => Some((0, 20)),
        Rule::As => Some((20, 21)),
        _ => None,
    }
}

/// The precedence level being assigned; each group of operators gets the next
struct Precedence(u8);

impl Precedence {
    /// Left-associative infix binding powers
    fn lhs(&self) -> (bp: (u8, u8))
        requires
            self.0 < 255,
        ensures
            bp == (self.0, (self.0 + 1) as u8),
    {
        (self.0, self.0 + 1)
    }

    /// Right-associative infix binding powers; the same as `lhs`
    fn rhs(&self) -> (bp: (u8, u8))
        requires
            self.0 < 255,
        ensures
            bp == (self.0, (self.0 + 1) as u8),
    {
        (self.0, self.0 + 1)
    }

    /// Prefix binding powers
    fn prefix(&self) -> (bp: (u8, u8))
        requires
            self.0 < 255,
        ensures
            bp == ((self.0 + 1) as u8, 0u8),
    {
        (self.0 + 1, 0)
    }

    /// Postfix binding powers
    fn postfix(&self) -> (bp: (u8, u8))
        requires
            self.0 < 255,
        ensures
            bp == (0u8, (self.0 + 1) as u8),
    {
        (0, self.0 + 1)
    }

    fn advance(&mut self)
        requires
            old(self).0 < 255,
        ensures
            final(self).0 == old(self).0 + 1,
    {
        self.0 = self.0 + 1;
    }
}

fn bind(table: &mut Vec<Option<(u8, u8)>>, rule: Rule, bp: (u8, u8))
    requires
        rule_index(rule) < old(table)@.len(),
    ensures
        final(table)@ == old(table)@.update(rule_index(rule) as int, Some(bp)),
{
    let i = rule.index() as usize;
    table.set(i, Some(bp));
}

/// Number of entries of the binding power table: one for every rule but `Error`
pub const TABLE_LEN: usize = 119;

/// The binding powers of all rules but `Error`, by rule index
pub fn generate_pratttable() -> (table: Vec<Option<(u8, u8)>>)
    ensures
        table@.len() == TABLE_LEN,
        forall|i: int| 0 <= i < TABLE_LEN ==> #[trigger] table@[i] == binding_power(rule_at(i as nat)->0),
{
    let mut precedence = Precedence(1);
    let mut table: Vec<Option<(u8, u8)>> = Vec::new();
    let mut k: usize = 0;
    while k < TABLE_LEN
        invariant
            k <= TABLE_LEN,
            table@.len() == k,
            forall|i: int| 0 <= i < k ==> #[trigger] table@[i] == None::<(u8, u8)>,
        decreases TABLE_LEN - k,
    {
        table.push(None);
        k = k + 1;
    }
    let bp = precedence.rhs();
    bind(&mut table, Rule::Assign, bp);
    let bp = precedence.rhs();
    bind(&mut table, Rule::AssignAdd, bp);
    let bp = precedence.rhs();
    bind(&mut table, Rule::AssignSub, bp);
    let bp = precedence.rhs();
    bind(&mut table, Rule::AssignPow, bp);
    let bp = precedence.rhs();
    bind(&mut table, Rule::AssignMod, bp);
    let bp = precedence.rhs();
    bind(&mut table, Rule::AssignMul, bp);
    let bp = precedence.rhs();
    bind(&mut table, Rule::AssignDiv, bp);
    let bp = precedence.rhs();
    bind(&mut table, Rule::AssignAnd, bp);
    let bp = precedence.rhs();
    bind(&mut table, Rule::AssignOr, bp);
    let bp = precedence.rhs();
    bind(&mut table, Rule::AssignXor, bp);
    let bp = precedence.rhs();
    bind(&mut table, Rule::AssignSL, bp);
    let bp = precedence.rhs();
    bind(&mut table, Rule::AssignSR, bp);
    precedence.advance();
    let bp = precedence.prefix();
    bind(&mut table, Rule::Delete, bp);
    precedence.advance();
    let bp = precedence.rhs();
    bind(&mut table, Rule::Range, bp);
    precedence.advance();
    let bp = precedence.rhs();
    bind(&mut table, Rule::TernaryOperator, bp);
    precedence.advance();
    let bp = precedence.postfix();
    bind(&mut table, Rule::DecoratorOperator, bp);
    precedence.advance();
    let bp = precedence.lhs();
    bind(&mut table, Rule::LogicalOr, bp);
    precedence.advance();
    let bp = precedence.lhs();
    bind(&mut table, Rule::LogicalAnd, bp);
    precedence.advance();
    let bp = precedence.lhs();
    bind(&mut table, Rule::Matches, bp);
    let bp = precedence.lhs();
    bind(&mut table, Rule::Contains, bp);
    let bp = precedence.lhs();
    bind(&mut table, Rule::StartsWith, bp);
    let bp = precedence.lhs();
    bind(&mut table, Rule::EndsWith, bp);
    precedence.advance();
    let bp = precedence.lhs();
    bind(&mut table, Rule::BitwiseOr, bp);
    precedence.advance();
    let bp = precedence.lhs();
    bind(&mut table, Rule::Xor, bp);
    precedence.advance();
    let bp = precedence.lhs();
    bind(&mut table, Rule::BitwiseAnd, bp);
    precedence.advance();
    let bp = precedence.lhs();
    bind(&mut table, Rule::Eq, bp);
    let bp = precedence.lhs();
    bind(&mut table, Rule::Ne, bp);
    let bp = precedence.lhs();
    bind(&mut table, Rule::SEq, bp);
    let bp = precedence.lhs();
    bind(&mut table, Rule::SNe, bp);
    precedence.advance();
    let bp = precedence.lhs();
    bind(&mut table, Rule::Lt, bp);
    let bp = precedence.lhs();
    bind(&mut table, Rule::Gt, bp);
    let bp = precedence.lhs();
    bind(&mut table, Rule::Le, bp);
    let bp = precedence.lhs();
    bind(&mut table, Rule::Ge, bp);
    precedence.advance();
    let bp = precedence.lhs();
    bind(&mut table, Rule::SL, bp);
    let bp = precedence.lhs();
    bind(&mut table, Rule::SR, bp);
    precedence.advance();
    let bp = precedence.lhs();
    bind(&mut table, Rule::Add, bp);
    let bp = precedence.lhs();
    bind(&mut table, Rule::Sub, bp);
    precedence.advance();
    let bp = precedence.lhs();
    bind(&mut table, Rule::Mul, bp);
    let bp = precedence.lhs();
    bind(&mut table, Rule::Div, bp);
    let bp = precedence.lhs();
    bind(&mut table, Rule::Mod, bp);
    precedence.advance();
    let bp = precedence.rhs();
    bind(&mut table, Rule::Pow, bp);
    precedence.advance();
    let bp = precedence.prefix();
    bind(&mut table, Rule::PrefixNeg, bp);
    let bp = precedence.prefix();
    bind(&mut table, Rule::BitwiseNot, bp);
    let bp = precedence.prefix();
    bind(&mut table, Rule::LogicalNot, bp);
    precedence.advance();
    let bp = precedence.postfix();
    bind(&mut table, Rule::FnCallOperator, bp);
    let bp = precedence.postfix();
    bind(&mut table, Rule::IndexingOperator, bp);
    precedence.advance();
    let bp = precedence.rhs();
    bind(&mut table, Rule::As, bp);
    precedence.advance();
    proof {
        assert forall|i: int| 0 <= i < TABLE_LEN implies #[trigger] table@[i] == binding_power(rule_at(i as nat)->0) by {
            crate::lexer::rule::lemma_index_rule_at(i as nat);
            crate::lexer::rule::lemma_rule_at_index(rule_at(i as nat)->0);
        }
    }
    table
}

/// The binding powers of a rule
pub fn priority_of(rule: Rule) -> (bp: Option<(u8, u8)>)
    ensures
        bp == binding_power(rule),
{
    match rule {
        Rule::Assign | Rule::AssignAdd | Rule::AssignSub | Rule::AssignPow | Rule::AssignMod | Rule::AssignMul | Rule::AssignDiv | Rule::AssignAnd | Rule::AssignOr | Rule::AssignXor | Rule::AssignSL | Rule::AssignSR => Some((1, 2)),
        Rule::Delete => Some((3, 0)),
        Rule::Range => Some((3, 4)),
        Rule::TernaryOperator => Some((4, 5)),
        Rule::DecoratorOperator => Some((0, 6)),
        Rule::LogicalOr => Some((6, 7)),
        Rule::LogicalAnd => Some((7, 8)),
        Rule::Matches | Rule::Contains | Rule::StartsWith | Rule::EndsWith => Some((8, 9)),
        Rule::BitwiseOr => Some((9, 10)),
        Rule::Xor => Some((10, 11)),
        Rule::BitwiseAnd => Some((11, 12)),
        Rule::Eq | Rule::Ne | Rule::SEq | Rule::SNe => Some((12, 13)),
        Rule::Lt | Rule::Gt | Rule::Le | Rule::Ge => Some((13, 14)),
        Rule::SL | Rule::SR => Some((14, 15)),
        Rule::Add | Rule::Sub => Some((15, 16)),
        Rule::Mul | Rule::Div | Rule::Mod => Some((16, 17)),
        Rule::Pow => Some((17, 18)),
        Rule::PrefixNeg | Rule::BitwiseNot | Rule::LogicalNot => Some((19, 0)),
        Rule::FnCallOperator | Rule::IndexingOperator => Some((0, 20)),
        Rule::As => Some((20, 21)),
        _ => None,
    }
}

/// The span a token covers
pub open spec fn span_of(t: TokenView) -> TokenSpan {
    (t.start as usize)..(t.end as usize)
}

/// An operator's token, widened to cover its operand's, under a new rule
pub open spec fn widened(op: TokenView, term: TokenView, rule: Rule) -> TokenView {
    TokenView {
        rule,
        start: if term.start < op.start { term.start } else { op.start },
        end: if term.end > op.end { term.end } else { op.end },
        ..op
    }
}

/// The operator node can be applied to a single operand: a prefix operator,
/// or call arguments or indexing brackets that carry what they apply
pub open spec fn unary_ok(op: NodeView) -> bool {
    match view_token(op).rule {
        Rule::Delete | Rule::PrefixNeg | Rule::LogicalNot | Rule::BitwiseNot => true,
        Rule::FnCallOperator => op is PostfixFnCallOperator,
        Rule::IndexingOperator => op is PostfixIndexingOperator,
        _ => false,
    }
}

/// The node an operator builds from a single operand. A call with a method's
/// name passes the operand as the first argument; a call without one calls
/// the function the operand names
#[verifier::opaque]
pub open spec fn pratt_unary(term: NodeView, op: NodeView) -> NodeView {
    let t = view_token(op);
    let u = view_token(term);
    match t.rule {
        Rule::Delete => NodeView::DeleteExpr {
            target: Box::new(term),
            token: widened(t, u, Rule::DeleteExpr),
        },
        Rule::PrefixNeg => NodeView::ArithmeticPrefixExpr {
            rhs: Box::new(term),
            token: widened(t, u, Rule::ArithmeticPrefixExpr),
        },
        Rule::LogicalNot => NodeView::LogicalNot { rhs: Box::new(term), token: widened(t, u, Rule::LogicalNot) },
        Rule::BitwiseNot => NodeView::BitwiseNot { rhs: Box::new(term), token: widened(t, u, Rule::BitwiseNot) },
        Rule::FnCallOperator => match op {
            NodeView::PostfixFnCallOperator { name_span, args, .. } => match name_span {
                Some(name) => NodeView::FnCall {
                    name_span: name,
                    args: seq![term] + args,
                    token: widened(t, u, Rule::FnCallExpr),
                },
                None => NodeView::FnCall { name_span: span_of(u), args, token: widened(t, u, Rule::FnCallExpr) },
            },
            _ => term,
        },
        Rule::IndexingOperator => match op {
            NodeView::PostfixIndexingOperator { path, .. } => NodeView::IndexingExpr {
                base: Box::new(term),
                path,
                token: widened(t, u, Rule::IndexingExpr),
            },
            _ => term,
        },
        _ => term,
    }
}

/// The views of nodes pushed one after the other
pub proof fn lemma_nodes_view_push(s: Seq<Node>, x: Node)
    ensures
        nodes_view(s.push(x)) == nodes_view(s).push(x@),
    decreases s.len(),
{
    let t = s.push(x);
    if s.len() == 0 {
        assert(t.subrange(1, 1) =~= Seq::<Node>::empty());
        assert(nodes_view(Seq::<Node>::empty()) == Seq::<NodeView>::empty());
        assert(t[0] == x);
        assert(nodes_view(t) =~= nodes_view(s).push(x@));
    } else {
        let rest = s.subrange(1, s.len() as int);
        lemma_nodes_view_push(rest, x);
        assert(t.subrange(1, t.len() as int) =~= rest.push(x));
        assert(nodes_view(t) =~= nodes_view(s).push(x@));
    }
}

/// A node followed by others
fn prepend(first: Node, rest: Vec<Node>) -> (v: Vec<Node>)
    ensures
        nodes_view(v@) == seq![first@] + nodes_view(rest@),
{
    let mut v: Vec<Node> = Vec::new();
    let ghost firstv = first@;
    let ghost items = rest@;
    v.push(first);
    proof {
        lemma_nodes_view_push(Seq::<Node>::empty(), v@[0]);
        assert(Seq::<Node>::empty().push(v@[0]) =~= v@);
        assert(nodes_view(Seq::<Node>::empty()) == Seq::<NodeView>::empty());
        assert(items.take(0) =~= Seq::<Node>::empty());
        assert(nodes_view(v@) =~= seq![firstv] + nodes_view(items.take(0)));
    }
    for x in it: rest
        invariant
            it.seq() == items,
            nodes_view(v@) == seq![firstv] + nodes_view(items.take(it.index())),
    {
        let ghost k = it.index();
        proof {
            lemma_nodes_view_push(v@, x);
            lemma_nodes_view_push(items.take(k), x);
            assert(items.take(k + 1) =~= items.take(k).push(x));
        }
        v.push(x);
    }
    assert(items.take(items.len() as int) =~= items);
    v
}

/// Convert an operand and the operator that applies to it into a single
/// expression node
pub fn build_pratt_unary(term: Node, op: Node) -> (r: Option<Node>)
    requires
        unary_ok(op@),
    ensures
        r matches Some(n) && n@ == pratt_unary(term@, op@),
{
    let ghost termv = term@;
    let ghost opv = op@;
    proof {
        reveal(pratt_unary);
    }
    let mut token = op.token().clone();
    token.include_span(term.token().span());
    let rule = op.token().rule();
    match rule {
        Rule::Delete => {
            token.set_rule(Rule::DeleteExpr);
            Some(Node::DeleteExpr { target: Box::new(term), token })
        },
        Rule::PrefixNeg => {
            token.set_rule(Rule::ArithmeticPrefixExpr);
            Some(Node::ArithmeticPrefixExpr { rhs: Box::new(term), token })
        },
        Rule::LogicalNot => {
            token.set_rule(Rule::LogicalNot);
            Some(Node::LogicalNot { rhs: Box::new(term), token })
        },
        Rule::BitwiseNot => {
            token.set_rule(Rule::BitwiseNot);
            Some(Node::BitwiseNot { rhs: Box::new(term), token })
        },
        Rule::FnCallOperator => {
            token.set_rule(Rule::FnCallExpr);
            match op {
                Node::PostfixFnCallOperator { name_span, args, .. } => match name_span {
                    Some(name) => {
                        let all = prepend(term, args);
                        Some(Node::FnCall { name_span: name, args: all, token })
                    },
                    None => {
                        let name = term.token().span();
                        Some(Node::FnCall { name_span: name, args, token })
                    },
                },
                _ => None,
            }
        },
        Rule::IndexingOperator => {
            token.set_rule(Rule::IndexingExpr);
            match op {
                Node::PostfixIndexingOperator { path, .. } => Some(
                    Node::IndexingExpr { base: Box::new(term), path, token },
                ),
                _ => None,
            }
        },
        _ => None,
    }
}

/// The binary-operator rules the Pratt parser can build nodes for
pub open spec fn binary_rule(rule: Rule) -> bool {
    ||| arithmetic_op_of(rule) is Some
    ||| bitwise_op_of(rule) is Some
    ||| comparison_op_of(rule) is Some
    ||| logical_op_of(rule) is Some
    ||| rule == Rule::Matches || rule == Rule::Contains || rule == Rule::StartsWith || rule == Rule::EndsWith
    ||| rule == Rule::Range || rule == Rule::Assign
    ||| assign_arithmetic_op(rule) is Some
    ||| assign_bitwise_op(rule) is Some
    ||| rule == Rule::TernaryOperator || rule == Rule::DecoratorOperator || rule == Rule::As
}

/// The arithmetic operator of a compound assignment
pub open spec fn assign_arithmetic_op(rule: Rule) -> Option<ArithmeticOp> {
    match rule {
        Rule::AssignAdd => Some(ArithmeticOp::Add),
        Rule::AssignSub => Some(ArithmeticOp::Sub),
        Rule::AssignMul => Some(ArithmeticOp::Mul),
        Rule::AssignDiv => Some(ArithmeticOp::Div),
        Rule::AssignMod => Some(ArithmeticOp::Mod),
        Rule::AssignPow => Some(ArithmeticOp::Pow),
        _ => None,
    }
}

/// The bitwise operator of a compound assignment
pub open spec fn assign_bitwise_op(rule: Rule) -> Option<BitwiseOp> {
    match rule {
        Rule::AssignAnd => Some(BitwiseOp::And),
        Rule::AssignOr => Some(BitwiseOp::Or),
        Rule::AssignXor => Some(BitwiseOp::Xor),
        Rule::AssignSL => Some(BitwiseOp::ShiftLeft),
        Rule::AssignSR => Some(BitwiseOp::ShiftRight),
        _ => None,
    }
}

/// The operator node can join the two operands: a ternary operator carries
/// the expression between its `?` and `:`, and a cast reads the type's name
/// from the text of its right operand
pub open spec fn binary_ok(lhs: NodeView, op: NodeView, rhs: NodeView) -> bool {
    let rule = view_token(op).rule;
    &&& binary_rule(rule)
    &&& rule == Rule::TernaryOperator ==> (op is InfixOperator && op->InfixOperator_inner is Some)
    &&& rule == Rule::As ==> view_token(rhs).in_bounds()
}

/// The node an operator builds from its two operands; its token spans from
/// the start of the left operand to the end of the right one. A cast to a
/// name that is no type is an error node
#[verifier::opaque]
pub open spec fn pratt_binary(lhs: NodeView, op: NodeView, rhs: NodeView) -> NodeView {
    let rule = view_token(op).rule;
    let l = view_token(lhs);
    let t = TokenView { rule, start: l.start, end: view_token(rhs).end, ..l };
    if arithmetic_op_of(rule) is Some {
        NodeView::ArithmeticInfixExpr {
            lhs: Box::new(lhs),
            op: arithmetic_op_of(rule)->0,
            rhs: Box::new(rhs),
            token: TokenView { rule: Rule::ArithmethicInfixExpr, ..t },
        }
    } else if bitwise_op_of(rule) is Some {
        NodeView::BitwiseInfixExpr {
            lhs: Box::new(lhs),
            op: bitwise_op_of(rule)->0,
            rhs: Box::new(rhs),
            token: TokenView { rule: Rule::BitwiseInfixExpr, ..t },
        }
    } else if comparison_op_of(rule) is Some {
        NodeView::ComparisonExpr {
            lhs: Box::new(lhs),
            op: comparison_op_of(rule)->0,
            rhs: Box::new(rhs),
            token: TokenView { rule: Rule::ComparisonExpr, ..t },
        }
    } else if logical_op_of(rule) is Some {
        NodeView::LogicalExpr {
            lhs: Box::new(lhs),
            op: logical_op_of(rule)->0,
            rhs: Box::new(rhs),
            token: TokenView { rule: Rule::LogicalExpr, ..t },
        }
    } else if rule == Rule::Matches || rule == Rule::Contains || rule == Rule::StartsWith || rule == Rule::EndsWith {
        NodeView::MatchExpr {
            lhs: Box::new(lhs),
            op: rule,
            rhs: Box::new(rhs),
            token: TokenView { rule: Rule::MatchExpr, ..t },
        }
    } else if rule == Rule::Range {
        NodeView::RangeExpr { start: Box::new(lhs), end: Box::new(rhs), token: TokenView { rule: Rule::RangeExpr, ..t } }
    } else if rule == Rule::Assign {
        NodeView::AssignExpr { target: Box::new(lhs), value: Box::new(rhs), token: TokenView { rule: Rule::AssignExpr, ..t } }
    } else if assign_arithmetic_op(rule) is Some {
        NodeView::AssignArithmeticExpr {
            target: Box::new(lhs),
            value: Box::new(rhs),
            op: assign_arithmetic_op(rule)->0,
            token: TokenView { rule: Rule::AssignArithmeticExpr, ..t },
        }
    } else if assign_bitwise_op(rule) is Some {
        NodeView::AssignBitwiseExpr {
            target: Box::new(lhs),
            value: Box::new(rhs),
            op: assign_bitwise_op(rule)->0,
            token: TokenView { rule: Rule::AssignBitwiseExpr, ..t },
        }
    } else if rule == Rule::TernaryOperator {
        NodeView::If {
            condition: Box::new(lhs),
            then_block: match op {
                NodeView::InfixOperator { inner: Some(i), .. } => i,
                _ => Box::new(lhs),
            },
            else_block: Box::new(rhs),
            token: TokenView { rule: Rule::TernaryExpr, ..t },
        }
    } else if rule == Rule::DecoratorOperator {
        NodeView::DecoratorExpr {
            expr: Box::new(lhs),
            name_span: span_of(view_token(rhs)),
            token: TokenView { rule: Rule::DecoratorExpr, ..t },
        }
    } else {
        match type_from_name(view_token(rhs).text()) {
            Some(ty) => NodeView::CastExpr {
                expr: Box::new(lhs),
                target_type: ty,
                token: TokenView { rule: Rule::CastExpr, ..t },
            },
            None => NodeView::Error { kind: ErrorKind::CannotCastToType, token: view_token(rhs) },
        }
    }
}

/// Convert two operands and the operator between them into a single
/// expression node
pub fn build_pratt_binary(lhs: Node, op: Node, rhs: Node) -> (r: Option<Node>)
    requires
        binary_ok(lhs@, op@, rhs@),
    ensures
        r matches Some(n) && n@ == pratt_binary(lhs@, op@, rhs@),
{
    proof {
        reveal(pratt_binary);
    }
    let rule = op.token().rule();
    let start = lhs.token().span().start;
    let end = rhs.token().span().end;
    let mut token = lhs.token().child(rule, start..end);
    if let Some(a) = ArithmeticOp::from_rule(rule) {
        token.set_rule(Rule::ArithmethicInfixExpr);
        return Some(Node::ArithmeticInfixExpr { lhs: Box::new(lhs), op: a, rhs: Box::new(rhs), token });
    }
    if let Some(b) = BitwiseOp::from_rule(rule) {
        token.set_rule(Rule::BitwiseInfixExpr);
        return Some(Node::BitwiseInfixExpr { lhs: Box::new(lhs), op: b, rhs: Box::new(rhs), token });
    }
    if let Some(c) = ComparisonOp::from_rule(rule) {
        token.set_rule(Rule::ComparisonExpr);
        return Some(Node::ComparisonExpr { lhs: Box::new(lhs), op: c, rhs: Box::new(rhs), token });
    }
    match rule {
        Rule::LogicalAnd | Rule::LogicalOr => {
            token.set_rule(Rule::LogicalExpr);
            let l = if rule == Rule::LogicalAnd { LogicalOp::And } else { LogicalOp::Or };
            Some(Node::LogicalExpr { lhs: Box::new(lhs), op: l, rhs: Box::new(rhs), token })
        },
        Rule::Matches | Rule::Contains | Rule::StartsWith | Rule::EndsWith => {
            token.set_rule(Rule::MatchExpr);
            Some(Node::MatchExpr { lhs: Box::new(lhs), op: rule, rhs: Box::new(rhs), token })
        },
        Rule::Range => {
            token.set_rule(Rule::RangeExpr);
            Some(Node::RangeExpr { start: Box::new(lhs), end: Box::new(rhs), token })
        },
        Rule::Assign => {
            token.set_rule(Rule::AssignExpr);
            Some(Node::AssignExpr { target: Box::new(lhs), value: Box::new(rhs), token })
        },
        Rule::AssignAdd | Rule::AssignSub | Rule::AssignMul | Rule::AssignDiv | Rule::AssignMod | Rule::AssignPow => {
            token.set_rule(Rule::AssignArithmeticExpr);
            let a = match rule {
                Rule::AssignAdd => ArithmeticOp::Add,
                Rule::AssignSub => ArithmeticOp::Sub,
                Rule::AssignMul => ArithmeticOp::Mul,
                Rule::AssignDiv => ArithmeticOp::Div,
                Rule::AssignMod => ArithmeticOp::Mod,
                _ => ArithmeticOp::Pow,
            };
            Some(Node::AssignArithmeticExpr { target: Box::new(lhs), value: Box::new(rhs), op: a, token })
        },
        Rule::AssignAnd | Rule::AssignOr | Rule::AssignXor | Rule::AssignSL | Rule::AssignSR => {
            token.set_rule(Rule::AssignBitwiseExpr);
            let b = match rule {
                Rule::AssignAnd => BitwiseOp::And,
                Rule::AssignOr => BitwiseOp::Or,
                Rule::AssignXor => BitwiseOp::Xor,
                Rule::AssignSL => BitwiseOp::ShiftLeft,
                _ => BitwiseOp::ShiftRight,
            };
            Some(Node::AssignBitwiseExpr { target: Box::new(lhs), value: Box::new(rhs), op: b, token })
        },
        Rule::TernaryOperator => {
            token.set_rule(Rule::TernaryExpr);
            match op {
                Node::InfixOperator { inner: Some(then_block), .. } => Some(
                    Node::If { condition: Box::new(lhs), then_block, else_block: Box::new(rhs), token },
                ),
                _ => None,
            }
        },
        Rule::DecoratorOperator => {
            token.set_rule(Rule::DecoratorExpr);
            let name_span = rhs.token().span();
            Some(Node::DecoratorExpr { expr: Box::new(lhs), name_span, token })
        },
        _ => {
            token.set_rule(Rule::CastExpr);
            match ValueType::from_str(rhs.token().slice()) {
                Some(ty) => Some(Node::CastExpr { expr: Box::new(lhs), target_type: ty, token }),
                None => Some(Node::Error(ParserError::CannotCastToType(rhs.token().clone()))),
            }
        },
    }
}

/// How folding an expression ends
pub enum FoldOutcome {
    /// The expression folded into a node, with the nodes left over
    Folded(NodeView, Seq<NodeView>),
    /// The nodes ran out where an operand was expected
    Missing,
    /// A node stands where it cannot: an operator in an operand's place, a
    /// term or prefix operator in an operator's place, or an operator that
    /// cannot build a node from its operands
    Stuck,
}

/// The rule of a node's token
pub open spec fn rule_of(n: NodeView) -> Rule {
    view_token(n).rule
}

/// Folds the expression whose nodes are `s`, in reverse order (the next node
/// is the last one), into a node: an operand, possibly after a prefix
/// operator, followed by the operators that bind to it at least as tightly as
/// `min_bp`
pub open spec fn fold(s: Seq<NodeView>, min_bp: u8) -> FoldOutcome
    decreases s.len(), 1nat,
{
    if s.len() == 0 {
        FoldOutcome::Missing
    } else {
        let first = s.last();
        let rest = s.drop_last();
        match binding_power(rule_of(first)) {
            None => fold_loop(first, rest, min_bp),
            Some((l, r)) => if l > 0 && r == 0 {
                match fold(rest, l) {
                    FoldOutcome::Folded(rhs, r2) => if !unary_ok(first) {
                        FoldOutcome::Stuck
                    } else if r2.len() < s.len() {
                        fold_loop(pratt_unary(rhs, first), r2, min_bp)
                    } else {
                        FoldOutcome::Stuck
                    },
                    other => other,
                }
            } else {
                FoldOutcome::Stuck
            },
        }
    }
}

/// Applies to `lhs` the operators at the end of `s` that bind to it at least
/// as tightly as `min_bp`: postfix operators directly, infix operators to the
/// expression folded after them
pub open spec fn fold_loop(lhs: NodeView, s: Seq<NodeView>, min_bp: u8) -> FoldOutcome
    decreases s.len(), 0nat,
{
    if s.len() == 0 {
        FoldOutcome::Folded(lhs, s)
    } else {
        let op = s.last();
        match binding_power(rule_of(op)) {
            None => FoldOutcome::Stuck,
            Some((l, r)) => if l == 0 {
                if r < min_bp {
                    FoldOutcome::Folded(lhs, s)
                } else if !unary_ok(op) {
                    FoldOutcome::Stuck
                } else {
                    fold_loop(pratt_unary(lhs, op), s.drop_last(), min_bp)
                }
            } else if r == 0 {
                FoldOutcome::Stuck
            } else if l < min_bp {
                FoldOutcome::Folded(lhs, s)
            } else {
                match fold(s.drop_last(), r) {
                    FoldOutcome::Folded(rhs, r2) => if !binary_ok(lhs, op, rhs) {
                        FoldOutcome::Stuck
                    } else if r2.len() < s.len() {
                        fold_loop(pratt_binary(lhs, op, rhs), r2, min_bp)
                    } else {
                        FoldOutcome::Stuck
                    },
                    other => other,
                }
            },
        }
    }
}

/// Folding consumes at least one node
pub proof fn lemma_fold_consumes(s: Seq<NodeView>, min_bp: u8)
    ensures
        fold(s, min_bp) matches FoldOutcome::Folded(_, r) ==> r.len() < s.len(),
    decreases s.len(),
{
    if s.len() > 0 {
        let first = s.last();
        let rest = s.drop_last();
        match binding_power(rule_of(first)) {
            None => lemma_fold_consumes_loop(first, rest, min_bp),
            Some((l, r)) => {
                lemma_fold_consumes(rest, l);
                if let FoldOutcome::Folded(rhs, r2) = fold(rest, l) {
                    lemma_fold_consumes_loop(pratt_unary(rhs, first), r2, min_bp);
                }
            },
        }
    }
}

/// Applying operators consumes none or more nodes
pub proof fn lemma_fold_consumes_loop(lhs: NodeView, s: Seq<NodeView>, min_bp: u8)
    ensures
        fold_loop(lhs, s, min_bp) matches FoldOutcome::Folded(_, r) ==> r.len() <= s.len(),
    decreases s.len(), 0nat,
{
    if s.len() > 0 {
        let op = s.last();
        match binding_power(rule_of(op)) {
            Some((l, r)) => {
                if l == 0 {
                    if r >= min_bp && unary_ok(op) {
                        lemma_fold_consumes_loop(pratt_unary(lhs, op), s.drop_last(), min_bp);
                    }
                } else if r != 0 && l >= min_bp {
                    if let FoldOutcome::Folded(rhs, r2) = fold(s.drop_last(), r) {
                        if binary_ok(lhs, op, rhs) && r2.len() < s.len() {
                            lemma_fold_consumes_loop(pratt_binary(lhs, op, rhs), r2, min_bp);
                        }
                    }
                }
            },
            None => {},
        }
    }
}

/// The views of a run of nodes without its last are the views without the
/// last one
proof fn lemma_nodes_view_pop(s: Seq<Node>)
    requires
        s.len() > 0,
    ensures
        nodes_view(s).len() == s.len(),
        nodes_view(s).last() == s.last()@,
        nodes_view(s.drop_last()) == nodes_view(s).drop_last(),
{
    lemma_nodes_view_len(s);
    lemma_nodes_view_push(s.drop_last(), s.last());
    assert(s.drop_last().push(s.last()) =~= s);
    assert(nodes_view(s).drop_last() =~= nodes_view(s.drop_last()));
}

/// There is one view for each node
proof fn lemma_nodes_view_len(s: Seq<Node>)
    ensures
        nodes_view(s).len() == s.len(),
    decreases s.len(),
{
    if s.len() > 0 {
        lemma_nodes_view_len(s.subrange(1, s.len() as int));
    }
}

/// Attempts to use the Pratt parsing algorithm to fold an expression of the
/// form `prefix_op? TERM postfix_op* (infix_op prefix_op? TERM postfix_op*)*`,
/// given in reverse order, into a single node. The binding power of each
/// operator is given by `priority_of`, a higher one meaning a higher
/// precedence; operators that bind less tightly than `min_bp` are left for
/// the caller. The nodes folded are taken off the end of `expr`
pub fn fold_expression(expr: &mut Vec<Node>, min_bp: u8) -> (r: Option<Node>)
    requires
        !(fold(nodes_view(old(expr)@), min_bp) is Stuck),
    ensures
        match fold(nodes_view(old(expr)@), min_bp) {
            FoldOutcome::Folded(n, rest) => r matches Some(x) && x@ == n && nodes_view(final(expr)@) == rest,
            _ => r is None && final(expr)@.len() == 0,
        },
    decreases old(expr)@.len(),
{
    let ghost orig = nodes_view(expr@);
    let ghost orig_len = expr@.len();
    if expr.len() == 0 {
        return None;
    }
    proof {
        lemma_nodes_view_pop(expr@);
    }
    let first = expr.pop().unwrap();
    let ghost firstv = first@;
    let rule = first.token().rule();
    let mut lhs = match priority_of(rule) {
        None => first,
        Some((l, r)) => {
            if l > 0 && r == 0 {
                let rhs = match fold_expression(expr, l) {
                    Some(x) => x,
                    None => return None,
                };
                proof {
                    lemma_fold_consumes(orig.drop_last(), l);
                    lemma_nodes_view_len(expr@);
                }
                match build_pratt_unary(rhs, first) {
                    Some(n) => n,
                    None => return None,
                }
            } else {
                return None;
            }
        },
    };
    proof {
        lemma_fold_consumes(orig.drop_last(), min_bp);
    }
    loop
        invariant
            expr@.len() < orig_len,
            orig_len == old(expr)@.len(),
            orig == nodes_view(old(expr)@),
            fold(orig, min_bp) == fold_loop(lhs@, nodes_view(expr@), min_bp),
            !(fold(orig, min_bp) is Stuck),
        ensures
            fold(orig, min_bp) == FoldOutcome::Folded(lhs@, nodes_view(expr@)),
        decreases expr@.len(),
    {
        let n = expr.len();
        if n == 0 {
            assert(nodes_view(expr@) =~= Seq::<NodeView>::empty());
            break;
        }
        proof {
            lemma_nodes_view_pop(expr@);
        }
        let op_rule = expr[n - 1].token().rule();
        let (l, r) = match priority_of(op_rule) {
            Some(p) => p,
            None => return None,
        };
        if l == 0 {
            if r < min_bp {
                break;
            }
            let op = expr.pop().unwrap();
            lhs = match build_pratt_unary(lhs, op) {
                Some(x) => x,
                None => return None,
            };
            continue;
        }
        if r == 0 {
            return None;
        }
        if l < min_bp {
            break;
        }
        let op = expr.pop().unwrap();
        let ghost rest = nodes_view(expr@);
        proof {
            lemma_nodes_view_len(expr@);
        }
        let rhs = match fold_expression(expr, r) {
            Some(x) => x,
            None => return None,
        };
        proof {
            lemma_fold_consumes(rest, r);
            lemma_nodes_view_len(expr@);
        }
        lhs = match build_pratt_binary(lhs, op, rhs) {
            Some(x) => x,
            None => return None,
        };
    }
    Some(lhs)
}

/// How tightly an operator binds what stands on its left
pub open spec fn left_bp(n: NodeView) -> u8 {
    match binding_power(rule_of(n)) {
        Some((l, _)) => l,
        None => 0,
    }
}

/// How tightly an operator binds what stands on its right
pub open spec fn right_bp(n: NodeView) -> u8 {
    match binding_power(rule_of(n)) {
        Some((_, r)) => r,
        None => 0,
    }
}

/// The node is a term: its rule binds to nothing
pub open spec fn is_term(n: NodeView) -> bool {
    binding_power(rule_of(n)) is None
}

/// The node is an infix operator: its rule binds on both sides
pub open spec fn is_infix(n: NodeView) -> bool {
    binding_power(rule_of(n)) matches Some((l, r)) && l > 0 && r > 0
}

/// A lone term folds into itself, whatever the binding power asked for
pub proof fn lemma_fold_term(a: NodeView, min_bp: u8)
    requires
        is_term(a),
    ensures
        fold(seq![a], min_bp) == FoldOutcome::Folded(a, Seq::<NodeView>::empty()),
{
    let s0 = Seq::<NodeView>::empty();
    assert(seq![a].drop_last() =~= s0);
    assert(seq![a].last() == a);
    assert(fold_loop(a, s0, min_bp) == FoldOutcome::Folded(a, s0));
}

/// Of two infix operators between three terms, `a p b q c`, the second takes
/// the middle term when it binds it at least as tightly from the left as the
/// first does from the right, `a p (b q c)`; otherwise the first does,
/// `(a p b) q c`
pub proof fn lemma_fold_precedence(a: NodeView, p: NodeView, b: NodeView, q: NodeView, c: NodeView)
    requires
        is_term(a),
        is_term(b),
        is_term(c),
        is_infix(p),
        is_infix(q),
        left_bp(q) < right_bp(p) ==> binary_ok(a, p, b)
            && binary_ok(pratt_binary(a, p, b), q, c),
        left_bp(q) >= right_bp(p) ==> binary_ok(b, q, c)
            && binary_ok(a, p, pratt_binary(b, q, c)),
    ensures
        fold(seq![c, q, b, p, a], 0) == if left_bp(q) < right_bp(p) {
            FoldOutcome::Folded(pratt_binary(pratt_binary(a, p, b), q, c), Seq::<NodeView>::empty())
        } else {
            FoldOutcome::Folded(pratt_binary(a, p, pratt_binary(b, q, c)), Seq::<NodeView>::empty())
        },
{
    let rp = right_bp(p);
    let rq = right_bp(q);
    let lq = left_bp(q);
    let s5 = seq![c, q, b, p, a];
    let s4 = seq![c, q, b, p];
    let s3 = seq![c, q, b];
    let s2 = seq![c, q];
    let s1 = seq![c];
    let s0 = Seq::<NodeView>::empty();
    assert(s5.drop_last() =~= s4);
    assert(s4.drop_last() =~= s3);
    assert(s3.drop_last() =~= s2);
    assert(s2.drop_last() =~= s1);
    assert(s1.drop_last() =~= s0);
    lemma_fold_term(c, rq);
    assert(fold(s1, rq) == FoldOutcome::Folded(c, s0));
    if lq < rp {
        assert(fold_loop(b, s2, rp) == FoldOutcome::Folded(b, s2));
        assert(fold(s3, rp) == FoldOutcome::Folded(b, s2));
        let ab = pratt_binary(a, p, b);
        assert(fold_loop(pratt_binary(ab, q, c), s0, 0) == FoldOutcome::Folded(pratt_binary(ab, q, c), s0));
        assert(fold_loop(ab, s2, 0) == FoldOutcome::Folded(pratt_binary(ab, q, c), s0));
        assert(fold_loop(a, s4, 0) == fold_loop(ab, s2, 0));
    } else {
        let bc = pratt_binary(b, q, c);
        assert(fold_loop(bc, s0, rp) == FoldOutcome::Folded(bc, s0));
        assert(fold_loop(b, s2, rp) == FoldOutcome::Folded(bc, s0));
        assert(fold(s3, rp) == FoldOutcome::Folded(bc, s0));
        let abc = pratt_binary(a, p, bc);
        assert(fold_loop(abc, s0, 0) == FoldOutcome::Folded(abc, s0));
        assert(fold_loop(a, s4, 0) == FoldOutcome::Folded(abc, s0));
    }
}

/// The precedence of the infix operators, loosest first: assignments, ranges,
/// the ternary, `||`, `&&`, the matching operators, `|`, `^`, `&`, the
/// equalities, the comparisons, the shifts, `+` and `-`, `*` `/` `%`, `**`,
/// and casts
pub open spec fn infix_level(rule: Rule) -> Option<int> {
    match rule {
        Rule::Assign | Rule::AssignAdd | Rule::AssignSub | Rule::AssignPow | Rule::AssignMod
        | Rule::AssignMul | Rule::AssignDiv | Rule::AssignAnd | Rule::AssignOr | Rule::AssignXor
        | Rule::AssignSL | Rule::AssignSR => Some(0),
        Rule::Range => Some(1),
        Rule::TernaryOperator => Some(2),
        Rule::LogicalOr => Some(3),
        Rule::LogicalAnd => Some(4),
        Rule::Matches | Rule::Contains | Rule::StartsWith | Rule::EndsWith => Some(5),
        Rule::BitwiseOr => Some(6),
        Rule::Xor => Some(7),
        Rule::BitwiseAnd => Some(8),
        Rule::Eq | Rule::Ne | Rule::SEq | Rule::SNe => Some(9),
        Rule::Lt | Rule::Gt | Rule::Le | Rule::Ge => Some(10),
        Rule::SL | Rule::SR => Some(11),
        Rule::Add | Rule::Sub => Some(12),
        Rule::Mul | Rule::Div | Rule::Mod => Some(13),
        Rule::Pow => Some(14),
        Rule::As => Some(15),
        _ => None,
    }
}

/// The left binding power of each infix operator grows with its level, and
/// its right one is one more
proof fn lemma_level_powers(rule: Rule)
    ensures
        infix_level(rule) matches Some(k) ==> binding_power(rule) matches Some((l, r)) && r == l + 1
            && l == k + 1 + (if k >= 1 { 1int } else { 0 }) + (if k >= 3 { 1int } else { 0 }) + (if k
            >= 15 { 2int } else { 0 }),
{
}

/// Operators of different precedence group as the precedence says: in
/// `a p b q c`, when `q` binds tighter than `p` it takes `b` (`a p (b q c)`),
/// and when it binds more loosely `p` takes `b` (`(a p b) q c`)
pub proof fn lemma_precedence_groups(p: Rule, q: Rule)
    requires
        infix_level(p) is Some,
        infix_level(q) is Some,
    ensures
        binding_power(p) matches Some((lp, rp)) && binding_power(q) matches Some((lq, rq)) && lp > 0
            && rp > 0 && lq > 0 && rq > 0 && (infix_level(q)->0 > infix_level(p)->0 ==> lq >= rp) && (
        infix_level(q)->0 < infix_level(p)->0 ==> lq < rp),
{
    lemma_level_powers(p);
    lemma_level_powers(q);
}

/// How tightly a rule binds on its left, `-1` for a rule that does not bind
pub open spec fn rule_left(rule: Rule) -> int {
    match binding_power(rule) {
        Some((l, _)) => l as int,
        None => -1,
    }
}

/// How tightly a rule binds on its right, `-1` for a rule that does not bind
pub open spec fn rule_right(rule: Rule) -> int {
    match binding_power(rule) {
        Some((_, r)) => r as int,
        None => -1,
    }
}

/// The prefix operators `-`, `~` and `!` take only the operand right after
/// them, before any infix operator up to `**` applies; calls and indexing
/// apply to the operand right before them, after a prefix operator and inside
/// any infix operator up to `**`
pub proof fn lemma_unary_groups(op: Rule, q: Rule)
    requires
        infix_level(q) matches Some(k) && k <= 14,
    ensures
        rule_left(q) > 0 && rule_right(q) > 0,
        (op == Rule::PrefixNeg || op == Rule::BitwiseNot || op == Rule::LogicalNot) ==> rule_right(op)
            == 0 && rule_left(op) > rule_left(q) && rule_left(op) > rule_right(q),
        (op == Rule::FnCallOperator || op == Rule::IndexingOperator) ==> rule_left(op) == 0
            && rule_right(op) >= rule_right(q) && rule_right(op) >= rule_left(Rule::PrefixNeg)
            && rule_right(op) >= rule_left(Rule::LogicalNot) && rule_right(op) >= rule_left(
            Rule::BitwiseNot,
        ),
{
    lemma_level_powers(q);
}

/// `&&` binds tighter than `||`: for any three terms, `a || b && c` folds into
/// the logical or of `a` with the logical and of `b` and `c`
pub proof fn lemma_and_binds_tighter_than_or(a: NodeView, p: NodeView, b: NodeView, q: NodeView, c: NodeView)
    requires
        is_term(a),
        is_term(b),
        is_term(c),
        rule_of(p) == Rule::LogicalOr,
        rule_of(q) == Rule::LogicalAnd,
    ensures
        (match fold(seq![c, q, b, p, a], 0) {
            FoldOutcome::Folded(n, rest) => rest.len() == 0 && match n {
                NodeView::LogicalExpr { lhs: l1, op: o1, rhs: r1, .. } => o1 == LogicalOp::Or && *l1 == a
                    && match *r1 {
                    NodeView::LogicalExpr { lhs: l2, op: o2, rhs: r2, .. } => o2 == LogicalOp::And && *l2
                        == b && *r2 == c,
                    _ => false,
                },
                _ => false,
            },
            _ => false,
        }),
{
    reveal(pratt_binary);
    assert(binary_ok(b, q, c));
    let bc = pratt_binary(b, q, c);
    assert(binary_ok(a, p, bc));
    assert(binary_ok(a, p, b));
    assert(binary_ok(pratt_binary(a, p, b), q, c));
    lemma_fold_precedence(a, p, b, q, c);
}

/// A prefix operator that can build a node
pub open spec fn is_prefix_node(n: NodeView) -> bool {
    &&& binding_power(rule_of(n)) matches Some((l, r)) && l > 0 && r == 0
    &&& unary_ok(n)
}

/// A postfix operator that can build a node: call arguments or indexing
/// brackets
pub open spec fn is_postfix_node(n: NodeView) -> bool {
    &&& binding_power(rule_of(n)) matches Some((l, r)) && l == 0 && r > 0
    &&& unary_ok(n)
}

/// An infix operator that can build a node: a ternary operator carries the
/// expression between its `?` and `:`
pub open spec fn is_infix_node(n: NodeView) -> bool {
    &&& is_infix(n)
    &&& rule_of(n) == Rule::TernaryOperator ==> (n is InfixOperator && n->InfixOperator_inner is Some)
}

/// The nodes, read from the end, are `prefix_op? TERM postfix_op* (infix_op
/// prefix_op? TERM postfix_op*)*`
pub open spec fn full_shape(s: Seq<NodeView>) -> bool
    decreases s.len(), 1nat,
{
    if s.len() == 0 {
        false
    } else if is_prefix_node(s.last()) {
        let rest = s.drop_last();
        rest.len() > 0 && is_term(rest.last()) && tail_shape(rest.drop_last())
    } else {
        is_term(s.last()) && tail_shape(s.drop_last())
    }
}

/// The nodes, read from the end, are `postfix_op* (infix_op prefix_op? TERM
/// postfix_op*)*`: what follows an operand
pub open spec fn tail_shape(s: Seq<NodeView>) -> bool
    decreases s.len(), 0nat,
{
    if s.len() == 0 {
        true
    } else if is_postfix_node(s.last()) {
        tail_shape(s.drop_last())
    } else {
        is_infix_node(s.last()) && full_shape(s.drop_last())
    }
}

/// The token of a node, as the layout of an expression speaks of it
#[verifier::opaque]
pub open spec fn node_token(n: NodeView) -> TokenView {
    view_token(n)
}

/// The token lies within the input
pub open spec fn within(t: TokenView, input: Seq<char>) -> bool {
    t.input == input && t.in_bounds()
}

/// The nodes' tokens lie within the input, each node (read from the end)
/// ending before the next one starts
pub open spec fn laid_out(s: Seq<NodeView>, input: Seq<char>) -> bool {
    &&& forall|i: int| 0 <= i < s.len() ==> within(#[trigger] node_token(s[i]), input)
    &&& forall|i: int| 0 < i < s.len() ==> node_token(#[trigger] s[i]).end <= node_token(s[i - 1]).start
}

/// An operator applied to one operand covers both tokens, on the operator's
/// input
proof fn lemma_unary_span(term: NodeView, op: NodeView)
    requires
        unary_ok(op),
    ensures
        node_token(pratt_unary(term, op)).input == node_token(op).input,
        node_token(pratt_unary(term, op)).start == if node_token(term).start < node_token(op).start {
            node_token(term).start
        } else {
            node_token(op).start
        },
        node_token(pratt_unary(term, op)).end == if node_token(term).end > node_token(op).end {
            node_token(term).end
        } else {
            node_token(op).end
        },
{
    reveal(node_token);
    reveal(pratt_unary);
}

/// An operator applied to two operands spans from the start of the left one
/// to the end of the right one, on the left one's input; a failed cast is
/// the right operand's token
proof fn lemma_binary_span(lhs: NodeView, op: NodeView, rhs: NodeView)
    requires
        binary_ok(lhs, op, rhs),
    ensures
        (node_token(pratt_binary(lhs, op, rhs)).start == node_token(lhs).start
            && node_token(pratt_binary(lhs, op, rhs)).end == node_token(rhs).end
            && node_token(pratt_binary(lhs, op, rhs)).input == node_token(lhs).input)
            || node_token(pratt_binary(lhs, op, rhs)) == node_token(rhs),
{
    reveal(node_token);
    reveal(pratt_binary);
}

/// The token of a node is its token
proof fn lemma_node_token(n: NodeView)
    ensures
        node_token(n) == view_token(n),
{
    reveal(node_token);
}

/// An operator with binding powers on both sides is one the Pratt parser
/// builds nodes for
proof fn lemma_infix_is_binary(rule: Rule)
    requires
        binding_power(rule) matches Some((l, r)) && l > 0 && r > 0,
    ensures
        binary_rule(rule),
{
}

/// A part at the start of laid-out nodes is laid out
proof fn lemma_laid_out_prefix(s: Seq<NodeView>, input: Seq<char>, k: int)
    requires
        laid_out(s, input),
        0 <= k <= s.len(),
    ensures
        laid_out(s.subrange(0, k), input),
{
    let t = s.subrange(0, k);
    assert forall|i: int| 0 <= i < t.len() implies within(#[trigger] node_token(t[i]), input) by {
        assert(t[i] == s[i]);
    }
    assert forall|i: int| 0 < i < t.len() implies node_token(#[trigger] t[i]).end <= node_token(t[i - 1]).start by {
        assert(t[i] == s[i]);
        assert(t[i - 1] == s[i - 1]);
    }
}

/// Folding a well-shaped expression whose tokens are laid out in order never
/// gets stuck: it gives a node whose token lies within the input, starting no
/// earlier than the expression's first node and ending before the nodes left
/// over, which are what follows an operand
#[verifier::spinoff_prover]
#[verifier::rlimit(100)]
pub proof fn lemma_fold_shaped(s: Seq<NodeView>, min_bp: u8, input: Seq<char>)
    requires
        full_shape(s),
        laid_out(s, input),
    ensures
        fold(s, min_bp) matches FoldOutcome::Folded(n, r) && tail_shape(r) && r.len() < s.len()
            && r == s.subrange(0, r.len() as int) && within(node_token(n), input)
            && node_token(n).start >= node_token(s.last()).start
            && (r.len() > 0 ==> node_token(n).end <= node_token(r.last()).start),
    decreases s.len(), 1nat,
{
    let first = s.last();
    let rest = s.drop_last();
    lemma_laid_out_prefix(s, input, s.len() - 1);
    assert(rest == s.subrange(0, s.len() - 1));
    if is_prefix_node(first) {
        let l = left_bp(first);
        lemma_fold_shaped(rest, l, input);
        if let FoldOutcome::Folded(rhs, r2) = fold(rest, l) {
            let node = pratt_unary(rhs, first);
            assert(node_token(rest.last()).start >= node_token(first).end) by {
                assert(rest.last() == s[s.len() - 2]);
                assert(first == s[s.len() - 1]);
            }
            lemma_unary_span(rhs, first);
            assert(node_token(node).start == node_token(first).start);
            lemma_laid_out_prefix(rest, input, r2.len() as int);
            lemma_loop_shaped(node, r2, min_bp, input);
        }
    } else {
        if rest.len() > 0 {
            assert(rest.last() == s[s.len() - 2]);
            assert(first == s[s.len() - 1]);
        }
        lemma_loop_shaped(first, rest, min_bp, input);
    }
}

/// Applying the operators that follow an operand, when they are well shaped
/// and laid out after it, never gets stuck
#[verifier::spinoff_prover]
#[verifier::rlimit(100)]
pub proof fn lemma_loop_shaped(lhs: NodeView, s: Seq<NodeView>, min_bp: u8, input: Seq<char>)
    requires
        tail_shape(s),
        laid_out(s, input),
        within(node_token(lhs), input),
        s.len() > 0 ==> node_token(lhs).end <= node_token(s.last()).start,
    ensures
        fold_loop(lhs, s, min_bp) matches FoldOutcome::Folded(n, r) && tail_shape(r) && r.len() <= s.len()
            && r == s.subrange(0, r.len() as int) && within(node_token(n), input)
            && node_token(n).start >= node_token(lhs).start
            && (r.len() > 0 ==> node_token(n).end <= node_token(r.last()).start),
    decreases s.len(), 0nat,
{
    if s.len() == 0 {
        assert(s == s.subrange(0, 0));
        return;
    }
    let op = s.last();
    let rest = s.drop_last();
    lemma_laid_out_prefix(s, input, s.len() - 1);
    assert(rest == s.subrange(0, s.len() - 1));
    assert(s == s.subrange(0, s.len() as int));
    if rest.len() > 0 {
        assert(rest.last() == s[s.len() - 2]);
        assert(op == s[s.len() - 1]);
    }
    if is_postfix_node(op) {
        let r = right_bp(op);
        if r >= min_bp {
            let node = pratt_unary(lhs, op);
            lemma_unary_span(lhs, op);
            assert(node_token(node).start == node_token(lhs).start);
            assert(node_token(node).end == node_token(op).end);
            lemma_loop_shaped(node, rest, min_bp, input);
            lemma_laid_out_prefix(s, input, 0);
        }
    } else {
        let l = left_bp(op);
        let r = right_bp(op);
        if l >= min_bp {
            lemma_fold_shaped(rest, r, input);
            if let FoldOutcome::Folded(rhs, r2) = fold(rest, r) {
                lemma_infix_is_binary(rule_of(op));
                lemma_node_token(rhs);
                let node = pratt_binary(lhs, op, rhs);
                assert(node_token(rhs).start >= node_token(op).end);
                lemma_binary_span(lhs, op, rhs);
                lemma_laid_out_prefix(rest, input, r2.len() as int);
                lemma_loop_shaped(node, r2, min_bp, input);
            }
        }
    }
}

} // verus!
