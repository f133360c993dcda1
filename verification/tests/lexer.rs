use lavendeux_parser::lexer::{Lexer, Rule, Tokenizer};

fn rules_of(input: &str) -> Vec<Rule> {
    let t = Lexer::new(input).all_tokens().unwrap();
    t.into_iter().map(|t| t.rule()).collect::<Vec<_>>()
}

#[test]
fn lexer_test_comments() {
    assert_eq!(
        vec![
            Rule::EOL,
            Rule::EOL,
            Rule::EOL,
            Rule::LiteralIdent,
            Rule::EOL,
            Rule::EOI
        ],
        rules_of(
            r#"
            // This is a line comment
            /* This is a 
            block 
            comment 
            
            */
            a
            "#
        )
    );
}

#[test]
fn lexer_test_const_indents_keywords() {
    assert_eq!(vec![Rule::LiteralIdent, Rule::EOI], rules_of("returned"));
    assert_eq!(vec![Rule::LiteralIdent, Rule::EOI], rules_of("pies"));
    assert_eq!(vec![Rule::LiteralIdent, Rule::EOI], rules_of("applepi"));
}

#[test]
fn keywords_beat_identifiers_of_equal_length() {
    assert_eq!(vec![Rule::If, Rule::EOI], rules_of("if"));
    assert_eq!(vec![Rule::LiteralConstPi, Rule::EOI], rules_of("pi"));
    assert_eq!(vec![Rule::LiteralConstE, Rule::EOI], rules_of("e"));
    assert_eq!(vec![Rule::Delete, Rule::EOI], rules_of("unset"));
    assert_eq!(vec![Rule::StartsWith, Rule::EOI], rules_of("startswith"));
}

#[test]
fn longest_operator_wins() {
    assert_eq!(
        vec![Rule::AssignPow, Rule::Pow, Rule::Mul, Rule::SEq, Rule::SNe, Rule::AssignSL, Rule::EOI],
        rules_of("**= ** * === !== <<=")
    );
}

#[test]
fn numbers_and_currencies() {
    assert_eq!(vec![Rule::LiteralInt, Rule::EOI], rules_of("1_000"));
    assert_eq!(vec![Rule::LiteralFloat, Rule::EOI], rules_of("1.5e-3"));
    assert_eq!(vec![Rule::LiteralFloat, Rule::EOI], rules_of(".5"));
    assert_eq!(vec![Rule::LiteralRadix, Rule::EOI], rules_of("0xff"));
    assert_eq!(vec![Rule::LiteralInt, Rule::LiteralIdent, Rule::EOI], rules_of("0x"));
    assert_eq!(vec![Rule::LiteralSuffixedCurrency, Rule::EOI], rules_of("5.25€"));
    assert_eq!(vec![Rule::LiteralPrefixedCurrency, Rule::EOI], rules_of("$10"));
    assert_eq!(vec![Rule::LiteralInt, Rule::LiteralIdent, Rule::EOI], rules_of("1e5"));
}

#[test]
fn strings_regexes_and_docs() {
    assert_eq!(vec![Rule::LiteralString, Rule::EOI], rules_of(r#""a \" b""#));
    assert_eq!(vec![Rule::LiteralString, Rule::EOI], rules_of("'it'"));
    assert_eq!(vec![Rule::LiteralRegex, Rule::EOI], rules_of(r#"r"a+b"gi"#));
    assert_eq!(vec![Rule::DocBlockComment, Rule::EOL, Rule::EOI], rules_of("//# docs\n"));
    assert_eq!(vec![Rule::Div, Rule::Mul, Rule::LiteralIdent, Rule::EOI], rules_of("/* x"));
}

#[test]
fn unrecognized_token_is_an_error() {
    let err = Lexer::new("a # b").all_tokens().unwrap_err();
    let lavendeux_parser::lexer::LexerError::UnrecognizedToken(t) = err;
    assert_eq!(t.rule(), Rule::Error);
    assert_eq!(t.span(), 2..3);
    assert_eq!(t.slice(), "#");
}

#[test]
fn lines_count_breaks_and_comments() {
    let tokens = Lexer::new("a\n/*\n\n*/b \\\nc").all_tokens().unwrap();
    let lines: Vec<usize> = tokens.iter().map(|t| t.line()).collect();
    // a; the line break, counted from the next line; b after a comment of two
    // breaks; c after an escaped break; the end of input
    assert_eq!(lines, vec![1, 2, 4, 5, 5]);
    assert_eq!(tokens[2].slice(), "b");
    assert_eq!(tokens[4].span(), 13..13);
}

#[test]
fn token_context_marks_the_token() {
    let tokens = Lexer::new("x = 1 +\ny").all_tokens().unwrap();
    let plus = &tokens[3];
    assert_eq!(plus.rule(), Rule::Add);
    assert_eq!(plus.context_slice(), "| x = 1 +\n|       ^");
    assert_eq!(plus.to_string(), "Line 1\n| x = 1 +\n|       ^");
}

fn tokenized_rules(input: &str) -> Vec<Rule> {
    let t = Tokenizer::new(input).all_tokens();
    t.into_iter().map(|t| t.rule()).collect::<Vec<_>>()
}

#[test]
fn tokenizer_test_comments() {
    assert_eq!(
        vec![
            Rule::EOL,
            Rule::EOL,
            Rule::EOL,
            Rule::LiteralIdent,
            Rule::EOL,
            Rule::EOI
        ],
        tokenized_rules(
            r#"
            // This is a line comment
            /* This is a 
            block 
            comment 
            
            */
            a
            "#
        )
    );
}

#[test]
fn tokenizer_test_const_indents_keywords() {
    assert_eq!(vec![Rule::LiteralIdent, Rule::EOI], tokenized_rules("returned"));
    assert_eq!(vec![Rule::LiteralIdent, Rule::EOI], tokenized_rules("pies"));
    assert_eq!(vec![Rule::LiteralIdent, Rule::EOI], tokenized_rules("applepi"));
}

#[test]
fn tokenizer_reads_on_past_errors() {
    let t = Tokenizer::new("a # b").all_tokens();
    let rules = t.iter().map(|t| t.rule()).collect::<Vec<_>>();
    assert_eq!(vec![Rule::LiteralIdent, Rule::Error, Rule::LiteralIdent, Rule::EOI], rules);
    assert_eq!(2..3, t[1].span());
    assert_eq!(4..5, t[2].span());
}

#[test]
fn tokenizer_counts_lines() {
    let mut t = Tokenizer::new("a\\\nb\nc");
    assert_eq!(1, t.consume_next().line());
    assert_eq!(2, t.consume_next().line());
    assert_eq!(3, t.consume_next().line());
}
