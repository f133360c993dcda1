use lavendeux_parser::lexer::{Rule, Token};
use lavendeux_parser::parser::nodes::Node;
use lavendeux_parser::parser::ops::ArithmeticOp;
use lavendeux_parser::parser::pratt::{build_pratt_binary, build_pratt_unary, fold_expression};
use lavendeux_parser::value::{Primitive, ValueType};
use std::rc::Rc;

fn tok(input: &Rc<String>, start: usize, end: usize, rule: Rule) -> Token {
    Token::new(1, start..end, rule, input.clone())
}

fn lit(input: &Rc<String>, at: usize, v: i128) -> Node {
    Node::LiteralInt { value: Primitive::Integer(v), token: tok(input, at, at + 1, Rule::LiteralInt) }
}

fn ident(input: &Rc<String>, start: usize, end: usize) -> Node {
    Node::LiteralIdent { token: tok(input, start, end, Rule::LiteralIdent) }
}

fn infix(input: &Rc<String>, at: usize, rule: Rule) -> Node {
    Node::InfixOperator { inner: None, token: tok(input, at, at + 1, rule) }
}

fn fold(mut nodes: Vec<Node>, min_bp: u8) -> (Option<Node>, Vec<Node>) {
    nodes.reverse();
    let r = fold_expression(&mut nodes, min_bp);
    (r, nodes)
}

fn int_value(n: &Node) -> i128 {
    match n {
        Node::LiteralInt { value: Primitive::Integer(v), .. } => *v,
        _ => panic!("not an integer literal"),
    }
}

#[test]
fn multiplication_binds_tighter_than_addition() {
    let s = Rc::new("1+2*3".to_string());
    let (r, rest) = fold(vec![lit(&s, 0, 1), infix(&s, 1, Rule::Add), lit(&s, 2, 2), infix(&s, 3, Rule::Mul), lit(&s, 4, 3)], 0);
    assert!(rest.is_empty());
    match r.unwrap() {
        Node::ArithmeticInfixExpr { lhs, op: ArithmeticOp::Add, rhs, token } => {
            assert_eq!(int_value(&lhs), 1);
            assert_eq!(token.rule(), Rule::ArithmethicInfixExpr);
            assert_eq!(token.span(), 0..5);
            match *rhs {
                Node::ArithmeticInfixExpr { lhs, op: ArithmeticOp::Mul, rhs, token } => {
                    assert_eq!(int_value(&lhs), 2);
                    assert_eq!(int_value(&rhs), 3);
                    assert_eq!(token.span(), 2..5);
                }
                _ => panic!("expected a product on the right"),
            }
        }
        _ => panic!("expected a sum"),
    }
}

#[test]
fn operators_of_equal_precedence_group_to_the_left() {
    let s = Rc::new("1*2+3".to_string());
    let (r, _) = fold(vec![lit(&s, 0, 1), infix(&s, 1, Rule::Mul), lit(&s, 2, 2), infix(&s, 3, Rule::Add), lit(&s, 4, 3)], 0);
    assert!(matches!(r, Some(Node::ArithmeticInfixExpr { op: ArithmeticOp::Add, .. })));
    let s = Rc::new("a=b=c".to_string());
    let (r, _) = fold(vec![ident(&s, 0, 1), infix(&s, 1, Rule::Assign), ident(&s, 2, 3), infix(&s, 3, Rule::Assign), ident(&s, 4, 5)], 0);
    match r.unwrap() {
        Node::AssignExpr { target, .. } => assert!(matches!(*target, Node::AssignExpr { .. })),
        _ => panic!("expected an assignment"),
    }
}

#[test]
fn weaker_operators_are_left_for_the_caller() {
    let s = Rc::new("1*2+3".to_string());
    let (r, rest) = fold(vec![lit(&s, 0, 1), infix(&s, 1, Rule::Mul), lit(&s, 2, 2), infix(&s, 3, Rule::Add), lit(&s, 4, 3)], 16);
    assert!(matches!(r, Some(Node::ArithmeticInfixExpr { op: ArithmeticOp::Mul, .. })));
    assert_eq!(rest.len(), 2);
    assert_eq!(rest[1].token().rule(), Rule::Add);
}

#[test]
fn a_lone_term_folds_into_itself() {
    let s = Rc::new("7".to_string());
    let (r, rest) = fold(vec![lit(&s, 0, 7)], 0);
    assert_eq!(int_value(&r.unwrap()), 7);
    assert!(rest.is_empty());
}

#[test]
fn a_missing_operand_folds_into_nothing() {
    let s = Rc::new("1+".to_string());
    let (r, rest) = fold(vec![lit(&s, 0, 1), infix(&s, 1, Rule::Add)], 0);
    assert!(r.is_none());
    assert!(rest.is_empty());
}

#[test]
fn prefix_operators_cover_their_operand() {
    let s = Rc::new("-x".to_string());
    let (r, _) = fold(vec![Node::PrefixOperator { token: tok(&s, 0, 1, Rule::PrefixNeg) }, ident(&s, 1, 2)], 0);
    match r.unwrap() {
        Node::ArithmeticPrefixExpr { rhs, token } => {
            assert_eq!(token.span(), 0..2);
            assert_eq!(token.rule(), Rule::ArithmeticPrefixExpr);
            assert!(matches!(*rhs, Node::LiteralIdent { .. }));
        }
        _ => panic!("expected a negation"),
    }
}

#[test]
fn calls_name_their_function_or_method() {
    let s = Rc::new("f(1)".to_string());
    let call = Node::PostfixFnCallOperator { name_span: None, args: vec![lit(&s, 2, 1)], token: tok(&s, 1, 4, Rule::FnCallOperator) };
    let n = build_pratt_unary(ident(&s, 0, 1), call).unwrap();
    match n {
        Node::FnCall { name_span, args, token } => {
            assert_eq!(name_span, 0..1);
            assert_eq!(args.len(), 1);
            assert_eq!(token.span(), 0..4);
            assert_eq!(token.rule(), Rule::FnCallExpr);
        }
        _ => panic!("expected a call"),
    }
    let s = Rc::new("x.len()".to_string());
    let call = Node::PostfixFnCallOperator { name_span: Some(2..5), args: vec![], token: tok(&s, 1, 7, Rule::FnCallOperator) };
    match build_pratt_unary(ident(&s, 0, 1), call).unwrap() {
        Node::FnCall { name_span, args, .. } => {
            assert_eq!(name_span, 2..5);
            assert_eq!(args.len(), 1);
            assert!(matches!(args[0], Node::LiteralIdent { .. }));
        }
        _ => panic!("expected a method call"),
    }
}

#[test]
fn casts_read_the_type_name() {
    let s = Rc::new("x as int".to_string());
    let n = build_pratt_binary(ident(&s, 0, 1), infix(&s, 2, Rule::As), ident(&s, 5, 8)).unwrap();
    match n {
        Node::CastExpr { target_type, token, .. } => {
            assert_eq!(target_type, ValueType::Integer);
            assert_eq!(token.span(), 0..8);
        }
        _ => panic!("expected a cast"),
    }
    let s = Rc::new("x as foo".to_string());
    let n = build_pratt_binary(ident(&s, 0, 1), infix(&s, 2, Rule::As), ident(&s, 5, 8)).unwrap();
    match n {
        Node::Error(e) => assert_eq!(e.token().span(), 5..8),
        _ => panic!("expected an error"),
    }
}

#[test]
fn ternaries_become_conditionals() {
    let s = Rc::new("a?b:c".to_string());
    let op = Node::InfixOperator { inner: Some(Box::new(ident(&s, 2, 3))), token: tok(&s, 1, 4, Rule::TernaryOperator) };
    let (r, _) = fold(vec![ident(&s, 0, 1), op, ident(&s, 4, 5)], 0);
    match r.unwrap() {
        Node::If { then_block, token, .. } => {
            assert_eq!(then_block.token().span(), 2..3);
            assert_eq!(token.rule(), Rule::TernaryExpr);
            assert_eq!(token.span(), 0..5);
        }
        _ => panic!("expected a conditional"),
    }
}

use lavendeux_parser::lexer::{Lexer, Stack};
use lavendeux_parser::parser::literals::{
    parse_literal_bool, parse_literal_float, parse_literal_ident, parse_literal_int, parse_literal_regex,
    parse_literal_string, parse_prefix_operator,
};
use lavendeux_parser::parser::ParserError;
use lavendeux_parser::literals::LiteralError;

fn stack_of(input: &str) -> Stack {
    Stack::new(Lexer::new(input).all_tokens().unwrap())
}

#[test]
fn integer_literals_in_any_base() {
    let mut s = stack_of("0x1F");
    assert!(matches!(parse_literal_int(&mut s), Some(Node::LiteralInt { value: Primitive::Integer(31), .. })));
    assert_eq!(s.len(), 1);
    let mut s = stack_of("1_000");
    assert!(matches!(parse_literal_int(&mut s), Some(Node::LiteralInt { value: Primitive::Integer(1000), .. })));
    let mut s = stack_of("0b101");
    assert!(matches!(parse_literal_int(&mut s), Some(Node::LiteralInt { value: Primitive::Integer(5), .. })));
}

#[test]
fn a_bad_base_is_an_invalid_literal() {
    let mut s = stack_of("0z1");
    match parse_literal_int(&mut s) {
        Some(Node::Error(ParserError::InvalidLiteral(t, LiteralError::InvalidRadixLiteral('z')))) => {
            assert_eq!(t.span(), 0..3)
        }
        _ => panic!("expected an invalid radix"),
    }
}

#[test]
fn a_literal_of_another_kind_leaves_the_stack_alone() {
    let mut s = stack_of("x");
    let before = s.len();
    assert!(parse_literal_int(&mut s).is_none());
    assert!(parse_literal_string(&mut s).is_none());
    assert_eq!(s.len(), before);
    match parse_literal_ident(&mut s) {
        Some(Node::LiteralIdent { token }) => assert_eq!(token.slice(), "x"),
        _ => panic!("expected an identifier"),
    }
    assert_eq!(s.len(), before - 1);
}

#[test]
fn string_literals_read_their_escapes() {
    let mut s = stack_of("'a\\nb'");
    match parse_literal_string(&mut s) {
        Some(Node::LiteralString { value: Primitive::String(v), .. }) => assert_eq!(v, "a\nb"),
        _ => panic!("expected a string"),
    }
}

#[test]
fn regex_literals_keep_their_text() {
    let mut s = stack_of("r\"a+b\"gi");
    match parse_literal_regex(&mut s) {
        Some(Node::LiteralString { value: Primitive::String(v), .. }) => assert_eq!(v, "r\"a+b\"gi"),
        _ => panic!("expected a regex"),
    }
}

#[test]
fn currency_literals_keep_their_symbol_and_digits() {
    let mut s = stack_of("$1.50");
    match parse_literal_float(&mut s) {
        Some(Node::LiteralFloat { value: Primitive::Decimal(n), .. }) => {
            assert_eq!(n.to_string(), "$1.50");
        }
        _ => panic!("expected a currency amount"),
    }
    let mut s = stack_of("2.5");
    match parse_literal_float(&mut s) {
        Some(Node::LiteralFloat { value: Primitive::Decimal(n), .. }) => assert_eq!(n.to_string(), "2.5"),
        _ => panic!("expected a decimal"),
    }
}

#[test]
fn boolean_literals_and_nil() {
    let mut s = stack_of("true");
    assert!(matches!(parse_literal_bool(&mut s), Some(Node::LiteralBool { value: Primitive::Boolean(true), .. })));
    let mut s = stack_of("nil");
    assert!(matches!(parse_literal_bool(&mut s), Some(Node::LiteralBool { value: Primitive::Boolean(false), .. })));
}

#[test]
fn a_minus_before_a_term_is_a_negation() {
    let mut s = stack_of("-x");
    let p = parse_prefix_operator(&mut s).unwrap();
    match &p {
        Node::PrefixOperator { token } => assert_eq!(token.rule(), Rule::PrefixNeg),
        _ => panic!("expected a prefix operator"),
    }
    let x = parse_literal_ident(&mut s).unwrap();
    let mut folded = vec![x, p];
    match fold_expression(&mut folded, 0) {
        Some(Node::ArithmeticPrefixExpr { token, .. }) => assert_eq!(token.span(), 0..2),
        _ => panic!("expected a negation"),
    }
}

#[test]
fn a_well_shaped_expression_folds_whole() {
    // -x + f(1) * y[0] as int
    let s = Rc::new("-x + f(1) * y[0] as int".to_string());
    let nodes = vec![
        Node::PrefixOperator { token: tok(&s, 0, 1, Rule::PrefixNeg) },
        ident(&s, 1, 2),
        infix(&s, 3, Rule::Add),
        ident(&s, 5, 6),
        Node::PostfixFnCallOperator { name_span: None, args: vec![lit(&s, 7, 1)], token: tok(&s, 6, 9, Rule::FnCallOperator) },
        infix(&s, 10, Rule::Mul),
        ident(&s, 12, 13),
        Node::PostfixIndexingOperator { path: vec![lit(&s, 14, 0)], token: tok(&s, 13, 16, Rule::IndexingOperator) },
        Node::InfixOperator { inner: None, token: tok(&s, 17, 19, Rule::As) },
        ident(&s, 20, 23),
    ];
    let (r, rest) = fold(nodes, 0);
    assert!(rest.is_empty());
    match r.unwrap() {
        Node::ArithmeticInfixExpr { lhs, op: ArithmeticOp::Add, rhs, token } => {
            assert_eq!(token.span(), 0..23);
            assert!(matches!(*lhs, Node::ArithmeticPrefixExpr { .. }));
            match *rhs {
                Node::ArithmeticInfixExpr { lhs, op: ArithmeticOp::Mul, rhs, .. } => {
                    assert!(matches!(*lhs, Node::FnCall { .. }));
                    assert!(matches!(*rhs, Node::CastExpr { target_type: ValueType::Integer, .. }));
                }
                _ => panic!("expected a product"),
            }
        }
        _ => panic!("expected a sum"),
    }
}

#[test]
fn identifier_node_names() {
    let input = Rc::new("a + total".to_string());
    let id = ident(&input, 4, 9);
    assert_eq!(id.name(), Some("total"));
    assert_eq!(lit(&input, 0, 1).name(), None);
}
