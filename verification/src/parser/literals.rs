//! The literal terms of expressions, and the prefix operators before them:
//! each parser takes one token of its kind off the stack and reads the value
//! it stands for. A literal whose text is not a valid value becomes an error
//! node.
use crate::lexer::rule::Rule;
use crate::lexer::stack::{lemma_apply_commits, lemma_revert_restores, started, taken, Stack};
use crate::lexer::token::{Token, TokenView};
use crate::parser::error::ParserError;
use crate::parser::nodes::{Node, NodeView};
use crate::literals::{decimal, integer, parse_radix, radix, radix_base, string, unescape, without_underscores, LiteralError};
use crate::value::number::{decimal_parse, Decimal, Number, NumberSymbol};
use crate::value::Primitive;
use vstd::prelude::*;

verus! {

/// The token on top of the stack
pub open spec fn next_token(s: Stack) -> TokenView {
    s.queue()[s.spec_len() - 1]@
}

/// The token on top of the stack is of one of `rules`
pub open spec fn next_is(s: Stack, rules: Seq<Rule>) -> bool {
    s.spec_len() > 0 && rules.contains(next_token(s).rule)
}

/// Takes the token on top of the stack when it is of one of `rules`; the
/// stack is left as it was otherwise
fn take(tokens: &mut Stack, rules: &[Rule]) -> (t: Option<Token>)
    requires
        old(tokens).wf(),
    ensures
        final(tokens).wf(),
        final(tokens).queue() == old(tokens).queue(),
        next_is(*old(tokens), rules@) ==> (t matches Some(tok) && tok@ == next_token(*old(tokens))
            && final(tokens).lens() == taken(old(tokens).lens())),
        !next_is(*old(tokens), rules@) ==> t is None && final(tokens).lens() == old(tokens).lens(),
{
    let ghost lens = tokens.lens();
    proof {
        tokens.lemma_wf_lens();
    }
    tokens.start_transaction();
    match tokens.try_pop_a(rules) {
        Some(t) => {
            let ghost reached = tokens.lens().last();
            proof {
                assert(tokens.lens() == started(lens).update(lens.len() as int, reached));
                lemma_apply_commits(lens, reached);
            }
            tokens.apply_transaction();
            assert(tokens.lens() =~= taken(lens));
            Some(t)
        },
        None => {
            proof {
                lemma_revert_restores(lens, lens.last());
                assert(started(lens) == started(lens).update(lens.len() as int, lens.last()));
            }
            None
        },
    }
}

/// Identifier literal: usually names a variable or a function
pub fn parse_literal_ident(tokens: &mut Stack) -> (r: Option<Node>)
    requires
        old(tokens).wf(),
    ensures
        final(tokens).wf(),
        final(tokens).queue() == old(tokens).queue(),
        next_is(*old(tokens), seq![Rule::LiteralIdent]) ==> (r matches Some(n)
            && n@ == (NodeView::LiteralIdent { token: next_token(*old(tokens)) })
            && final(tokens).lens() == taken(old(tokens).lens())),
        !next_is(*old(tokens), seq![Rule::LiteralIdent]) ==> r is None && final(tokens).lens() == old(tokens).lens(),
{
    let rules = [Rule::LiteralIdent];
    assert(rules@ == seq![Rule::LiteralIdent]);
    let token = take(tokens, &rules)?;
    Some(Node::LiteralIdent { token })
}

/// Boolean literal: `true`, or `false` and `nil`, which stand for false
pub fn parse_literal_bool(tokens: &mut Stack) -> (r: Option<Node>)
    requires
        old(tokens).wf(),
    ensures
        final(tokens).wf(),
        final(tokens).queue() == old(tokens).queue(),
        next_is(*old(tokens), bool_rules()) ==> (r matches Some(n)
            && n@ == (NodeView::LiteralBool {
                value: Primitive::Boolean(next_token(*old(tokens)).rule == Rule::LiteralConstTrue),
                token: next_token(*old(tokens)),
            })
            && final(tokens).lens() == taken(old(tokens).lens())),
        !next_is(*old(tokens), bool_rules()) ==> r is None && final(tokens).lens() == old(tokens).lens(),
{
    let rules = [Rule::LiteralConstFalse, Rule::LiteralConstTrue, Rule::LiteralConstNil];
    assert(rules@ == bool_rules());
    let token = take(tokens, &rules)?;
    let value = token.rule() == Rule::LiteralConstTrue;
    Some(Node::LiteralBool { value: Primitive::Boolean(value), token })
}

/// The rules of boolean literals
pub open spec fn bool_rules() -> Seq<Rule> {
    seq![Rule::LiteralConstFalse, Rule::LiteralConstTrue, Rule::LiteralConstNil]
}

/// Regular-expression literal: its text, slashes and flags included, as a
/// string
pub fn parse_literal_regex(tokens: &mut Stack) -> (r: Option<Node>)
    requires
        old(tokens).wf(),
        next_is(*old(tokens), seq![Rule::LiteralRegex]) ==> next_token(*old(tokens)).in_bounds(),
    ensures
        final(tokens).wf(),
        final(tokens).queue() == old(tokens).queue(),
        next_is(*old(tokens), seq![Rule::LiteralRegex]) ==> (r matches Some(n)
            && n@ matches NodeView::LiteralString { value: Primitive::String(text), token }
            && text@ == next_token(*old(tokens)).text() && token == next_token(*old(tokens))
            && final(tokens).lens() == taken(old(tokens).lens())),
        !next_is(*old(tokens), seq![Rule::LiteralRegex]) ==> r is None && final(tokens).lens() == old(tokens).lens(),
{
    let rules = [Rule::LiteralRegex];
    assert(rules@ == seq![Rule::LiteralRegex]);
    let token = take(tokens, &rules)?;
    let value = String::from_str(token.slice());
    Some(Node::LiteralString { value: Primitive::String(value), token })
}

/// String literal: the text between its quotes, with its escapes read
pub fn parse_literal_string(tokens: &mut Stack) -> (r: Option<Node>)
    requires
        old(tokens).wf(),
        next_is(*old(tokens), seq![Rule::LiteralString]) ==> next_token(*old(tokens)).in_bounds()
            && next_token(*old(tokens)).text().len() >= 2,
    ensures
        final(tokens).wf(),
        final(tokens).queue() == old(tokens).queue(),
        next_is(*old(tokens), seq![Rule::LiteralString]) ==> ({
            let t = next_token(*old(tokens));
            &&& final(tokens).lens() == taken(old(tokens).lens())
            &&& match unescape(t.text().subrange(1, t.text().len() - 1)) {
                Ok(text) => r matches Some(n) && n@ matches NodeView::LiteralString {
                    value: Primitive::String(v),
                    token,
                } && v@ == text && token == t,
                Err(e) => r matches Some(n) && n matches Node::Error(ParserError::InvalidLiteral(tok, e2))
                    && e2 == e && tok@ == t,
            }
        }),
        !next_is(*old(tokens), seq![Rule::LiteralString]) ==> r is None && final(tokens).lens() == old(tokens).lens(),
{
    let rules = [Rule::LiteralString];
    assert(rules@ == seq![Rule::LiteralString]);
    let token = take(tokens, &rules)?;
    match string(token.slice()) {
        Ok(value) => Some(Node::LiteralString { value: Primitive::String(value), token }),
        Err(e) => Some(Node::Error(ParserError::InvalidLiteral(token, e))),
    }
}

/// The integer a decimal literal's text stands for
pub open spec fn int_literal_value(text: Seq<char>) -> Result<i128, LiteralError> {
    match parse_radix(without_underscores(text), 10, true, i128::MIN as int, i128::MAX as int) {
        Some(v) => Ok(v as i128),
        None => Err(LiteralError::InvalidIntLiteral),
    }
}

/// The integer a radix literal's text stands for: its second character names
/// the base, its digits follow
pub open spec fn radix_literal_value(text: Seq<char>) -> Result<i128, LiteralError> {
    let letter = text[1];
    match radix_base(letter) {
        None => Err(LiteralError::InvalidRadixLiteral(letter)),
        Some(base) => match parse_radix(
            without_underscores(text.subrange(2, text.len() as int)),
            base,
            true,
            i128::MIN as int,
            i128::MAX as int,
        ) {
            Some(v) => Ok(v as i128),
            None => Err(LiteralError::InvalidIntLiteral),
        },
    }
}

/// The character is a single byte in UTF-8
pub open spec fn is_ascii_char(c: char) -> bool {
    (c as u32) < 128
}

/// Integer literal, decimal or in the base its prefix names (`0b`, `0o`,
/// `0d`, `0x`)
pub fn parse_literal_int(tokens: &mut Stack) -> (r: Option<Node>)
    requires
        old(tokens).wf(),
        next_is(*old(tokens), int_rules()) ==> next_token(*old(tokens)).in_bounds(),
        next_is(*old(tokens), int_rules()) && next_token(*old(tokens)).rule == Rule::LiteralRadix ==> ({
            let text = next_token(*old(tokens)).text();
            text.len() >= 2 && is_ascii_char(text[0]) && is_ascii_char(text[1])
        }),
    ensures
        final(tokens).wf(),
        final(tokens).queue() == old(tokens).queue(),
        next_is(*old(tokens), int_rules()) ==> ({
            let t = next_token(*old(tokens));
            let v = if t.rule == Rule::LiteralInt { int_literal_value(t.text()) } else { radix_literal_value(t.text()) };
            &&& final(tokens).lens() == taken(old(tokens).lens())
            &&& match v {
                Ok(i) => r matches Some(n) && n@ == (NodeView::LiteralInt { value: Primitive::Integer(i), token: t }),
                Err(e) => r matches Some(n) && n matches Node::Error(ParserError::InvalidLiteral(tok, e2))
                    && e2 == e && tok@ == t,
            }
        }),
        !next_is(*old(tokens), int_rules()) ==> r is None && final(tokens).lens() == old(tokens).lens(),
{
    let rules = [Rule::LiteralInt, Rule::LiteralRadix];
    assert(rules@ == int_rules());
    let token = take(tokens, &rules)?;
    let text = token.slice();
    let value = if token.rule() == Rule::LiteralInt {
        integer(text)
    } else {
        let letter = text.get_char(1);
        let n = text.unicode_len();
        radix(text.substring_char(2, n), letter)
    };
    match value {
        Ok(v) => Some(Node::LiteralInt { value: Primitive::Integer(v), token }),
        Err(e) => Some(Node::Error(ParserError::InvalidLiteral(token, e))),
    }
}

/// The rules of integer literals
pub open spec fn int_rules() -> Seq<Rule> {
    seq![Rule::LiteralInt, Rule::LiteralRadix]
}

/// The rules of decimal literals
pub open spec fn float_rules() -> Seq<Rule> {
    seq![Rule::LiteralFloat, Rule::LiteralPrefixedCurrency, Rule::LiteralSuffixedCurrency]
}

/// The digits of a decimal literal: the text without its currency symbol
pub open spec fn float_digits(rule: Rule, text: Seq<char>) -> Seq<char> {
    if rule == Rule::LiteralPrefixedCurrency {
        text.subrange(1, text.len() as int)
    } else if rule == Rule::LiteralSuffixedCurrency {
        text.subrange(0, text.len() - 1)
    } else {
        text
    }
}

/// The currency symbol of a decimal literal, with the side it stands on
pub open spec fn float_symbol(rule: Rule, text: Seq<char>) -> Option<(bool, Seq<char>)> {
    if rule == Rule::LiteralPrefixedCurrency {
        Some((true, seq![text[0]]))
    } else if rule == Rule::LiteralSuffixedCurrency {
        Some((false, seq![text.last()]))
    } else {
        None
    }
}

/// Decimal literal, possibly a currency amount: the symbol is kept, and a
/// currency amount keeps as many fractional digits as it was written with
pub fn parse_literal_float(tokens: &mut Stack) -> (r: Option<Node>)
    requires
        old(tokens).wf(),
        next_is(*old(tokens), float_rules()) ==> next_token(*old(tokens)).in_bounds(),
        next_is(*old(tokens), float_rules()) && next_token(*old(tokens)).rule == Rule::LiteralPrefixedCurrency ==> ({
            let text = next_token(*old(tokens)).text();
            text.len() >= 1 && is_ascii_char(text[0])
        }),
        next_is(*old(tokens), float_rules()) && next_token(*old(tokens)).rule == Rule::LiteralSuffixedCurrency ==> ({
            let text = next_token(*old(tokens)).text();
            text.len() >= 1 && is_ascii_char(text.last())
        }),
    ensures
        final(tokens).wf(),
        final(tokens).queue() == old(tokens).queue(),
        next_is(*old(tokens), float_rules()) ==> ({
            let t = next_token(*old(tokens));
            let digits = float_digits(t.rule, t.text());
            let symbol = float_symbol(t.rule, t.text());
            &&& final(tokens).lens() == taken(old(tokens).lens())
            &&& match decimal_parse(without_underscores(digits)) {
                Some((c, k)) => r matches Some(n) && n@ matches NodeView::LiteralFloat {
                    value: Primitive::Decimal(num),
                    token,
                } && token == t && num.value() == (Decimal { coeff: c, n_frac_digits: k })
                    && num.symbol() == symbol
                    && num.precision() == (if symbol is Some { Some(k as i8) } else { None::<i8> }),
                None => r matches Some(n) && n matches Node::Error(ParserError::InvalidLiteral(tok, e))
                    && e == LiteralError::InvalidFloatLiteral && tok@ == t,
            }
        }),
        !next_is(*old(tokens), float_rules()) ==> r is None && final(tokens).lens() == old(tokens).lens(),
{
    let rules = [Rule::LiteralFloat, Rule::LiteralPrefixedCurrency, Rule::LiteralSuffixedCurrency];
    assert(rules@ == float_rules());
    let token = take(tokens, &rules)?;
    let text = token.slice();
    let n = text.unicode_len();
    let rule = token.rule();
    let (digits, symbol) = if rule == Rule::LiteralPrefixedCurrency {
        (text.substring_char(1, n), Some(NumberSymbol::Prefix(String::from_str(text.substring_char(0, 1)))))
    } else if rule == Rule::LiteralSuffixedCurrency {
        (text.substring_char(0, n - 1), Some(NumberSymbol::Suffix(String::from_str(text.substring_char(n - 1, n)))))
    } else {
        (text, None)
    };
    proof {
        if rule == Rule::LiteralPrefixedCurrency {
            assert(text@.subrange(0, 1) =~= seq![text@[0]]);
        } else if rule == Rule::LiteralSuffixedCurrency {
            assert(text@.subrange(n - 1, n as int) =~= seq![text@.last()]);
        }
    }
    let value = match decimal(digits) {
        Ok(v) => v,
        Err(e) => return Some(Node::Error(ParserError::InvalidLiteral(token, e))),
    };
    let precision = match symbol {
        Some(_) => Some(value.n_frac_digits as i8),
        None => None,
    };
    let number = Number::new(value, symbol, precision);
    Some(Node::LiteralFloat { value: Primitive::Decimal(number), token })
}

/// The rules of prefix operators: `-` stands for negation before a term
pub open spec fn prefix_rules() -> Seq<Rule> {
    seq![Rule::Sub, Rule::BitwiseNot, Rule::LogicalNot, Rule::Delete]
}

/// Prefix operator (`-`, `~`, `!`, `del`), waiting for its operand; a `-`
/// there is a negation
pub fn parse_prefix_operator(tokens: &mut Stack) -> (r: Option<Node>)
    requires
        old(tokens).wf(),
    ensures
        final(tokens).wf(),
        final(tokens).queue() == old(tokens).queue(),
        next_is(*old(tokens), prefix_rules()) ==> ({
            let t = next_token(*old(tokens));
            let rule = if t.rule == Rule::Sub { Rule::PrefixNeg } else { t.rule };
            &&& r matches Some(n) && n@ == (NodeView::PrefixOperator { token: TokenView { rule, ..t } })
            &&& final(tokens).lens() == taken(old(tokens).lens())
        }),
        !next_is(*old(tokens), prefix_rules()) ==> r is None && final(tokens).lens() == old(tokens).lens(),
{
    let rules = [Rule::Sub, Rule::BitwiseNot, Rule::LogicalNot, Rule::Delete];
    assert(rules@ == prefix_rules());
    let mut token = take(tokens, &rules)?;
    if token.rule() == Rule::Sub {
        token.set_rule(Rule::PrefixNeg);
    }
    Some(Node::PrefixOperator { token })
}

} // verus!
