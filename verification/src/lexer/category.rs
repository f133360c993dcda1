//! Categories of rules, used to tell the user what kind of token was expected.
use crate::lexer::rule::{rule_label, Rule};
use crate::text::{chars_of, string_from_chars};
use vstd::prelude::*;

verus! {

/// A category of rules
#[derive(Debug, Clone, PartialEq, Eq, PartialOrd, Ord, Hash)]
pub enum Category {
    Operator(Vec<Rule>),
    Symbol(Vec<Rule>),
    Keyword(Vec<Rule>),
    Identifier,
    Literal,
    EOL,
    EOI,
}

/// A category, with its rules as a sequence
pub enum CategoryView {
    Operator(Seq<Rule>),
    Symbol(Seq<Rule>),
    Keyword(Seq<Rule>),
    Identifier,
    Literal,
    EOL,
    EOI,
}

impl View for Category {
    type V = CategoryView;

    open spec fn view(&self) -> CategoryView {
        match self {
            Category::Operator(r) => CategoryView::Operator(r@),
            Category::Symbol(r) => CategoryView::Symbol(r@),
            Category::Keyword(r) => CategoryView::Keyword(r@),
            Category::Identifier => CategoryView::Identifier,
            Category::Literal => CategoryView::Literal,
            Category::EOL => CategoryView::EOL,
            Category::EOI => CategoryView::EOI,
        }
    }
}

/// The kind of category a rule falls in
pub enum RuleClass {
    Operator,
    Symbol,
    Keyword,
    Identifier,
    Literal,
    EOL,
    EOI,
    Uncategorized,
}

/// The kind of category each rule falls in
pub open spec fn rule_class(rule: Rule) -> RuleClass {
    match rule {
        Rule::EOI => RuleClass::EOI,
        Rule::EOL => RuleClass::EOL,
        Rule::LParen | Rule::RParen | Rule::LBrace | Rule::RBrace | Rule::LBrack | Rule::RBrack
        | Rule::Comma | Rule::Colon | Rule::Range | Rule::Dot | Rule::Question
        | Rule::Decorator => RuleClass::Symbol,
        Rule::Assign | Rule::AssignAdd | Rule::AssignSub | Rule::AssignPow | Rule::AssignMul
        | Rule::AssignDiv | Rule::AssignMod | Rule::AssignOr | Rule::AssignAnd | Rule::AssignXor
        | Rule::AssignSL | Rule::AssignSR | Rule::Add | Rule::Sub | Rule::Pow | Rule::Mul
        | Rule::Div | Rule::Mod | Rule::BitwiseNot | Rule::BitwiseOr | Rule::BitwiseAnd | Rule::Xor
        | Rule::SL | Rule::SR | Rule::LogicalOr | Rule::LogicalAnd | Rule::LogicalNot | Rule::SEq
        | Rule::SNe | Rule::Eq | Rule::Ne | Rule::Le | Rule::Ge | Rule::Lt | Rule::Gt
        | Rule::FatArrow => RuleClass::Operator,
        Rule::If | Rule::Then | Rule::Else | Rule::For | Rule::In | Rule::Do | Rule::Where
        | Rule::Switch | Rule::Return | Rule::Continue | Rule::Break | Rule::Delete | Rule::As
        | Rule::Contains | Rule::Matches | Rule::StartsWith | Rule::EndsWith => RuleClass::Keyword,
        Rule::LiteralIdent => RuleClass::Identifier,
        Rule::LiteralConstPi | Rule::LiteralConstE | Rule::LiteralConstTau | Rule::LiteralConstNil
        | Rule::LiteralConstTrue | Rule::LiteralConstFalse | Rule::LiteralInt | Rule::LiteralRadix
        | Rule::LiteralPrefixedCurrency | Rule::LiteralSuffixedCurrency | Rule::LiteralFloat
        | Rule::LiteralRegex | Rule::LiteralString => RuleClass::Literal,
        _ => RuleClass::Uncategorized,
    }
}

/// The category of a single rule
pub open spec fn category_of(rule: Rule) -> Option<CategoryView> {
    match rule_class(rule) {
        RuleClass::Operator => Some(CategoryView::Operator(seq![rule])),
        RuleClass::Symbol => Some(CategoryView::Symbol(seq![rule])),
        RuleClass::Keyword => Some(CategoryView::Keyword(seq![rule])),
        RuleClass::Identifier => Some(CategoryView::Identifier),
        RuleClass::Literal => Some(CategoryView::Literal),
        RuleClass::EOL => Some(CategoryView::EOL),
        RuleClass::EOI => Some(CategoryView::EOI),
        RuleClass::Uncategorized => None,
    }
}

/// The rules of `rules` in `class`, each once, in the order of their first
/// occurrence
pub open spec fn rules_in_class(rules: Seq<Rule>, class: RuleClass) -> Seq<Rule>
    decreases rules.len(),
{
    if rules.len() == 0 {
        Seq::empty()
    } else {
        let before = rules_in_class(rules.drop_last(), class);
        let r = rules.last();
        if rule_class(r) == class && !before.contains(r) {
            before.push(r)
        } else {
            before
        }
    }
}

/// Some rule of `rules` is in `class`
pub open spec fn has_class(rules: Seq<Rule>, class: RuleClass) -> bool {
    exists|i: int| 0 <= i < rules.len() && rule_class(rules[i]) == class
}

/// The categories of a set of rules: the symbols, keywords and operators each
/// grouped into one category, then the identifier, literal, line break and end
/// of input categories, each where some rule falls in it
pub open spec fn categories_of(rules: Seq<Rule>) -> Seq<CategoryView> {
    let symbols = rules_in_class(rules, RuleClass::Symbol);
    let keywords = rules_in_class(rules, RuleClass::Keyword);
    let operators = rules_in_class(rules, RuleClass::Operator);
    (if symbols.len() > 0 { seq![CategoryView::Symbol(symbols)] } else { seq![] }) + (
    if keywords.len() > 0 { seq![CategoryView::Keyword(keywords)] } else { seq![] }) + (
    if operators.len() > 0 { seq![CategoryView::Operator(operators)] } else { seq![] }) + (
    if has_class(rules, RuleClass::Identifier) { seq![CategoryView::Identifier] } else { seq![] })
        + (if has_class(rules, RuleClass::Literal) { seq![CategoryView::Literal] } else { seq![] })
        + (if has_class(rules, RuleClass::EOL) { seq![CategoryView::EOL] } else { seq![] }) + (
    if has_class(rules, RuleClass::EOI) { seq![CategoryView::EOI] } else { seq![] })
}

/// The items joined by `sep`
pub open spec fn join(items: Seq<Seq<char>>, sep: Seq<char>) -> Seq<char>
    decreases items.len(),
{
    if items.len() == 0 {
        Seq::empty()
    } else if items.len() == 1 {
        items[0]
    } else {
        join(items.drop_last(), sep) + sep + items.last()
    }
}

/// The label of each rule, between backticks when `quoted`
pub open spec fn rule_labels(rules: Seq<Rule>, quoted: bool) -> Seq<Seq<char>> {
    rules.map_values(
        |r: Rule|
            if quoted {
                seq!['`'] + rule_label(r) + seq!['`']
            } else {
                rule_label(r)
            },
    )
}

/// The text a category is displayed as
pub open spec fn category_label(c: CategoryView) -> Seq<char> {
    match c {
        CategoryView::Operator(r) => "Operator("@ + join(rule_labels(r, true), ", "@) + ")"@,
        CategoryView::Symbol(r) => "Symbol(`"@ + join(rule_labels(r, false), ", "@) + "`)"@,
        CategoryView::Keyword(r) => "Keyword("@ + join(rule_labels(r, true), ", "@) + ")"@,
        CategoryView::Identifier => "identifier"@,
        CategoryView::Literal => "literal value"@,
        CategoryView::EOL => "linebreak"@,
        CategoryView::EOI => "end of input"@,
    }
}

/// Append the characters of `s`
fn push_str(out: &mut Vec<char>, s: &str)
    ensures
        final(out)@ == old(out)@ + s@,
{
    let cs = chars_of(s);
    let mut i: usize = 0;
    while i < cs.len()
        invariant
            i <= cs@.len(),
            cs@ == s@,
            out@ == old(out)@ + cs@.take(i as int),
        decreases cs@.len() - i,
    {
        out.push(cs[i]);
        i = i + 1;
        assert(cs@.take(i as int) =~= cs@.take(i - 1).push(cs@[i - 1]));
    }
    assert(cs@.take(cs@.len() as int) =~= cs@);
}

/// Append the labels of `rules`, joined by `, `
fn push_rule_labels(out: &mut Vec<char>, rules: &Vec<Rule>, quoted: bool)
    ensures
        final(out)@ == old(out)@ + join(rule_labels(rules@, quoted), ", "@),
{
    let mut i: usize = 0;
    while i < rules.len()
        invariant
            i <= rules@.len(),
            out@ == old(out)@ + join(rule_labels(rules@.take(i as int), quoted), ", "@),
        decreases rules@.len() - i,
    {
        proof {
            reveal_strlit(", ");
        }
        if i > 0 {
            push_str(out, ", ");
        }
        if quoted {
            out.push('`');
        }
        let label = rules[i].to_string();
        push_str(out, label.as_str());
        if quoted {
            out.push('`');
        }
        proof {
            let done = rules@.take(i as int);
            let next = rules@.take(i + 1);
            assert(next.drop_last() =~= done);
            assert(rule_labels(next, quoted).drop_last() =~= rule_labels(done, quoted));
            assert(rule_labels(next, quoted).last() == rule_labels(rules@, quoted)[i as int]);
            if i == 0 {
                assert(rule_labels(next, quoted).len() == 1);
            }
        }
        i = i + 1;
        assert(out@ =~= old(out)@ + join(rule_labels(rules@.take(i as int), quoted), ", "@));
    }
    assert(rules@.take(rules@.len() as int) =~= rules@);
}

impl Category {
    /// The category of a rule, if it has one
    pub fn from_rule(rule: Rule) -> (c: Option<Self>)
        ensures
            c matches Some(x) ==> category_of(rule) == Some(x@),
            c is None <==> category_of(rule) is None,
    {
        match rule {
            Rule::EOI => Some(Category::EOI),
            Rule::EOL => Some(Category::EOL),
            Rule::LParen | Rule::RParen | Rule::LBrace | Rule::RBrace | Rule::LBrack
            | Rule::RBrack | Rule::Comma | Rule::Colon | Rule::Range | Rule::Dot | Rule::Question
            | Rule::Decorator => {
                let v = vec![rule];
                assert(v@ =~= seq![rule]);
                Some(Category::Symbol(v))
            },
            Rule::Assign | Rule::AssignAdd | Rule::AssignSub | Rule::AssignPow | Rule::AssignMul
            | Rule::AssignDiv | Rule::AssignMod | Rule::AssignOr | Rule::AssignAnd
            | Rule::AssignXor | Rule::AssignSL | Rule::AssignSR | Rule::Add | Rule::Sub
            | Rule::Pow | Rule::Mul | Rule::Div | Rule::Mod | Rule::BitwiseNot | Rule::BitwiseOr
            | Rule::BitwiseAnd | Rule::Xor | Rule::SL | Rule::SR | Rule::LogicalOr
            | Rule::LogicalAnd | Rule::LogicalNot | Rule::SEq | Rule::SNe | Rule::Eq | Rule::Ne
            | Rule::Le | Rule::Ge | Rule::Lt | Rule::Gt | Rule::FatArrow => {
                let v = vec![rule];
                assert(v@ =~= seq![rule]);
                Some(Category::Operator(v))
            },
            Rule::If | Rule::Then | Rule::Else | Rule::For | Rule::In | Rule::Do | Rule::Where
            | Rule::Switch | Rule::Return | Rule::Continue | Rule::Break | Rule::Delete | Rule::As
            | Rule::Contains | Rule::Matches | Rule::StartsWith | Rule::EndsWith => {
                let v = vec![rule];
                assert(v@ =~= seq![rule]);
                Some(Category::Keyword(v))
            },
            Rule::LiteralIdent => Some(Category::Identifier),
            Rule::LiteralConstPi | Rule::LiteralConstE | Rule::LiteralConstTau
            | Rule::LiteralConstNil | Rule::LiteralConstTrue | Rule::LiteralConstFalse
            | Rule::LiteralInt | Rule::LiteralRadix | Rule::LiteralPrefixedCurrency
            | Rule::LiteralSuffixedCurrency | Rule::LiteralFloat | Rule::LiteralRegex
            | Rule::LiteralString => Some(Category::Literal),
            _ => None,
        }
    }

    /// The categories of a set of rules, with symbols, keywords and operators
    /// each gathered into one category and nothing repeated
    pub fn from_ruleset(rules: &[Rule]) -> (cats: Vec<Self>)
        ensures
            cats@.map_values(|c: Category| c@) == categories_of(rules@),
    {
        let mut symbols: Vec<Rule> = Vec::new();
        let mut keywords: Vec<Rule> = Vec::new();
        let mut operators: Vec<Rule> = Vec::new();
        let mut ident = false;
        let mut literal = false;
        let mut eol = false;
        let mut eoi = false;
        let mut i: usize = 0;
        while i < rules.len()
            invariant
                i <= rules@.len(),
                symbols@ == rules_in_class(rules@.take(i as int), RuleClass::Symbol),
                keywords@ == rules_in_class(rules@.take(i as int), RuleClass::Keyword),
                operators@ == rules_in_class(rules@.take(i as int), RuleClass::Operator),
                ident == has_class(rules@.take(i as int), RuleClass::Identifier),
                literal == has_class(rules@.take(i as int), RuleClass::Literal),
                eol == has_class(rules@.take(i as int), RuleClass::EOL),
                eoi == has_class(rules@.take(i as int), RuleClass::EOI),
            decreases rules@.len() - i,
        {
            let r = rules[i];
            proof {
                lemma_class_step(rules@, i as int);
            }
            if r == Rule::EOI {
                eoi = true;
            }
            if r == Rule::EOL {
                eol = true;
            }
            if r == Rule::LiteralIdent {
                ident = true;
            }
            if rule_is_literal(r) {
                literal = true;
            }
            if rule_is_symbol(r) && !contains(&symbols, r) {
                symbols.push(r);
            }
            if rule_is_keyword(r) && !contains(&keywords, r) {
                keywords.push(r);
            }
            if rule_is_operator(r) && !contains(&operators, r) {
                operators.push(r);
            }
            i = i + 1;
        }
        proof {
            assert(rules@.take(rules@.len() as int) =~= rules@);
        }
        let mut cats: Vec<Category> = Vec::new();
        push_group(&mut cats, Category::Symbol(symbols));
        push_group(&mut cats, Category::Keyword(keywords));
        push_group(&mut cats, Category::Operator(operators));
        push_flag(&mut cats, ident, Category::Identifier);
        push_flag(&mut cats, literal, Category::Literal);
        push_flag(&mut cats, eol, Category::EOL);
        push_flag(&mut cats, eoi, Category::EOI);
        cats
    }

    /// The text this category is displayed as
    pub fn to_string(&self) -> (s: String)
        ensures
            s@ == category_label(self@),
    {
        let mut out: Vec<char> = Vec::new();
        match self {
            Category::Operator(r) => {
                push_str(&mut out, "Operator(");
                push_rule_labels(&mut out, r, true);
                push_str(&mut out, ")");
            },
            Category::Symbol(r) => {
                push_str(&mut out, "Symbol(`");
                push_rule_labels(&mut out, r, false);
                push_str(&mut out, "`)");
            },
            Category::Keyword(r) => {
                push_str(&mut out, "Keyword(");
                push_rule_labels(&mut out, r, true);
                push_str(&mut out, ")");
            },
            Category::Identifier => push_str(&mut out, "identifier"),
            Category::Literal => push_str(&mut out, "literal value"),
            Category::EOL => push_str(&mut out, "linebreak"),
            Category::EOI => push_str(&mut out, "end of input"),
        }
        assert(out@ =~= category_label(self@));
        string_from_chars(out.as_slice())
    }

    /// The categories displayed one after the other, separated by `, `
    pub fn many_to_string(this: &Vec<Self>) -> (s: String)
        ensures
            s@ == join(this@.map_values(|c: Category| category_label(c@)), ", "@),
    {
        let mut out: Vec<char> = Vec::new();
        let ghost labels = this@.map_values(|c: Category| category_label(c@));
        let mut i: usize = 0;
        while i < this.len()
            invariant
                i <= this@.len(),
                labels == this@.map_values(|c: Category| category_label(c@)),
                out@ == join(labels.take(i as int), ", "@),
            decreases this@.len() - i,
        {
            proof {
                reveal_strlit(", ");
            }
            if i > 0 {
                push_str(&mut out, ", ");
            }
            let label = this[i].to_string();
            push_str(&mut out, label.as_str());
            proof {
                assert(labels.take(i + 1).drop_last() =~= labels.take(i as int));
                if i == 0 {
                    assert(labels.take(1).len() == 1);
                }
            }
            i = i + 1;
            assert(out@ =~= join(labels.take(i as int), ", "@));
        }
        assert(labels.take(this@.len() as int) =~= labels);
        string_from_chars(out.as_slice())
    }

    /// The categories of a set of rules, displayed
    pub fn format_rules(this: &Vec<Rule>) -> (s: String)
        ensures
            s@ == join(categories_of(this@).map_values(|c: CategoryView| category_label(c)), ", "@),
    {
        let cats = Category::from_ruleset(this.as_slice());
        let s = Category::many_to_string(&cats);
        assert(cats@.map_values(|c: Category| category_label(c@)) =~= categories_of(this@).map_values(
            |c: CategoryView| category_label(c),
        ));
        s
    }
}

/// The rules of `class` among the first `i + 1` rules, and whether there is
/// one, follow from those among the first `i`
proof fn lemma_class_step(rules: Seq<Rule>, i: int)
    requires
        0 <= i < rules.len(),
    ensures
        forall|c: RuleClass|
            #![trigger rules_in_class(rules.take(i + 1), c)]
            rules_in_class(rules.take(i + 1), c) == if rule_class(rules[i]) == c
                && !rules_in_class(rules.take(i), c).contains(rules[i]) {
                rules_in_class(rules.take(i), c).push(rules[i])
            } else {
                rules_in_class(rules.take(i), c)
            },
        forall|c: RuleClass|
            #![trigger has_class(rules.take(i + 1), c)]
            has_class(rules.take(i + 1), c) == (has_class(rules.take(i), c) || rule_class(rules[i])
                == c),
{
    let prev = rules.take(i);
    let next = rules.take(i + 1);
    assert(next.drop_last() =~= prev);
    assert(next.last() == rules[i]);
    assert forall|c: RuleClass| #[trigger] has_class(next, c) == (has_class(prev, c) || rule_class(rules[i]) == c) by {
        if rule_class(rules[i]) == c {
            assert(next[i] == rules[i]);
        }
        if has_class(prev, c) {
            let k = choose|k: int| 0 <= k < prev.len() && rule_class(prev[k]) == c;
            assert(next[k] == prev[k]);
        }
        if has_class(next, c) {
            let k = choose|k: int| 0 <= k < next.len() && rule_class(next[k]) == c;
            if k < i {
                assert(prev[k] == next[k]);
            }
        }
    }
}

/// Add a group of rules as a category when it has any rule
fn push_group(cats: &mut Vec<Category>, group: Category)
    requires
        group matches Category::Symbol(_) || group matches Category::Keyword(_) || group matches Category::Operator(_),
    ensures
        final(cats)@.map_values(|c: Category| c@) == old(cats)@.map_values(|c: Category| c@) + (
        if group_len(group@) > 0 { seq![group@] } else { seq![] }),
{
    let n = match &group {
        Category::Symbol(r) => r.len(),
        Category::Keyword(r) => r.len(),
        Category::Operator(r) => r.len(),
        _ => 0,
    };
    let ghost before = cats@;
    if n > 0 {
        cats.push(group);
        assert(cats@.map_values(|c: Category| c@) =~= before.map_values(|c: Category| c@).push(
            group@,
        ));
    } else {
        assert(cats@.map_values(|c: Category| c@) =~= before.map_values(|c: Category| c@));
    }
}

/// Add a category when `present`
fn push_flag(cats: &mut Vec<Category>, present: bool, cat: Category)
    ensures
        final(cats)@.map_values(|c: Category| c@) == old(cats)@.map_values(|c: Category| c@) + (
        if present { seq![cat@] } else { seq![] }),
{
    let ghost before = cats@;
    if present {
        cats.push(cat);
        assert(cats@.map_values(|c: Category| c@) =~= before.map_values(|c: Category| c@).push(
            cat@,
        ));
    } else {
        assert(cats@.map_values(|c: Category| c@) =~= before.map_values(|c: Category| c@));
    }
}

/// The number of rules in a group category
pub open spec fn group_len(c: CategoryView) -> nat {
    match c {
        CategoryView::Operator(r) => r.len(),
        CategoryView::Symbol(r) => r.len(),
        CategoryView::Keyword(r) => r.len(),
        _ => 0,
    }
}

fn contains(v: &Vec<Rule>, r: Rule) -> (b: bool)
    ensures
        b == v@.contains(r),
{
    let mut i: usize = 0;
    while i < v.len()
        invariant
            i <= v@.len(),
            forall|k: int| 0 <= k < i ==> v@[k] != r,
        decreases v@.len() - i,
    {
        if v[i] == r {
            return true;
        }
        i = i + 1;
    }
    false
}

fn rule_is_symbol(r: Rule) -> (b: bool)
    ensures
        b == (rule_class(r) == RuleClass::Symbol),
{
    matches!(r, Rule::LParen | Rule::RParen | Rule::LBrace | Rule::RBrace | Rule::LBrack
        | Rule::RBrack | Rule::Comma | Rule::Colon | Rule::Range | Rule::Dot | Rule::Question
        | Rule::Decorator)
}

fn rule_is_operator(r: Rule) -> (b: bool)
    ensures
        b == (rule_class(r) == RuleClass::Operator),
{
    matches!(r, Rule::Assign | Rule::AssignAdd | Rule::AssignSub | Rule::AssignPow
        | Rule::AssignMul | Rule::AssignDiv | Rule::AssignMod | Rule::AssignOr | Rule::AssignAnd
        | Rule::AssignXor | Rule::AssignSL | Rule::AssignSR | Rule::Add | Rule::Sub | Rule::Pow
        | Rule::Mul | Rule::Div | Rule::Mod | Rule::BitwiseNot | Rule::BitwiseOr
        | Rule::BitwiseAnd | Rule::Xor | Rule::SL | Rule::SR | Rule::LogicalOr | Rule::LogicalAnd
        | Rule::LogicalNot | Rule::SEq | Rule::SNe | Rule::Eq | Rule::Ne | Rule::Le | Rule::Ge
        | Rule::Lt | Rule::Gt | Rule::FatArrow)
}

fn rule_is_keyword(r: Rule) -> (b: bool)
    ensures
        b == (rule_class(r) == RuleClass::Keyword),
{
    matches!(r, Rule::If | Rule::Then | Rule::Else | Rule::For | Rule::In | Rule::Do
        | Rule::Where | Rule::Switch | Rule::Return | Rule::Continue | Rule::Break | Rule::Delete
        | Rule::As | Rule::Contains | Rule::Matches | Rule::StartsWith | Rule::EndsWith)
}

fn rule_is_literal(r: Rule) -> (b: bool)
    ensures
        b == (rule_class(r) == RuleClass::Literal),
{
    matches!(r, Rule::LiteralConstPi | Rule::LiteralConstE | Rule::LiteralConstTau
        | Rule::LiteralConstNil | Rule::LiteralConstTrue | Rule::LiteralConstFalse
        | Rule::LiteralInt | Rule::LiteralRadix | Rule::LiteralPrefixedCurrency
        | Rule::LiteralSuffixedCurrency | Rule::LiteralFloat | Rule::LiteralRegex
        | Rule::LiteralString)
}

} // verus!
