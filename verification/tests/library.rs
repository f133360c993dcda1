use lavendeux_parser::cli::{CliOptions, CliRequest, CompilerMode};
use lavendeux_parser::compiler::asm_transcoder::LabelGun;
use lavendeux_parser::compiler::{Compiler, CompilerOptions, DebugProfile, FunctionDocs};
use lavendeux_parser::lexer::{Category, Lexer, Rule, Stack};
use lavendeux_parser::literals::{decimal, integer, radix, string, LiteralError};
use lavendeux_parser::parser::ops::{ArithmeticOp, BitwiseOp, ComparisonOp, MatchingOp};
use lavendeux_parser::parser::pratt::{generate_pratttable, priority_of};
use lavendeux_parser::traits::{ByteReader, SerializeToBytes};
use lavendeux_parser::value::{Decimal, ValueType};

#[test]
fn literal_integers() {
    assert_eq!(radix("ff", 'x'), Ok(255));
    assert_eq!(radix("1_0_1", 'b'), Ok(5));
    assert_eq!(radix("17", 'o'), Ok(15));
    assert_eq!(radix("12", 'q'), Err(LiteralError::InvalidRadixLiteral('q')));
    assert_eq!(radix("19", 'o'), Err(LiteralError::InvalidIntLiteral));
    assert_eq!(integer("1_000"), Ok(1000));
    assert_eq!(integer("-42"), Ok(-42));
    assert_eq!(integer("abc"), Err(LiteralError::InvalidIntLiteral));
    assert_eq!(integer("170141183460469231731687303715884105728"), Err(LiteralError::InvalidIntLiteral));
}

#[test]
fn literal_decimals() {
    let d = decimal("1_234.50").unwrap();
    assert_eq!((d.coeff, d.n_frac_digits), (123450, 2));
    assert!(matches!(decimal("1.2.3"), Err(LiteralError::InvalidFloatLiteral)));
    assert_eq!(Decimal::from_int(7).coeff, 7);
}

#[test]
fn literal_strings() {
    assert_eq!(string("'a\\nb'").unwrap(), "a\nb");
    assert_eq!(string("\"q\\\"\"").unwrap(), "q\"");
    assert_eq!(string("'\\u0041'").unwrap(), "A");
    assert_eq!(string("'\\x'"), Err(LiteralError::InvalidEscapeSequence('x')));
    assert_eq!(string("'\\ud800'"), Err(LiteralError::InvalidEscapeSequence('\\')));
}

#[test]
fn operator_kinds() {
    assert_eq!(ArithmeticOp::from_rule(Rule::Pow), Some(ArithmeticOp::Pow));
    assert_eq!(ArithmeticOp::from_rule(Rule::Assign), None);
    assert_eq!(BitwiseOp::from_rule(Rule::SL), Some(BitwiseOp::ShiftLeft));
    assert_eq!(ComparisonOp::from_rule(Rule::SNe), Some(ComparisonOp::SNeq));
    assert_eq!(MatchingOp::from_rule(Rule::StartsWith), Some(MatchingOp::StartsWith));
}

#[test]
fn pratt_binding_powers() {
    let table = generate_pratttable();
    assert_eq!(table.len(), 119);
    assert_eq!(priority_of(Rule::Assign), Some((1, 2)));
    assert_eq!(priority_of(Rule::Delete), Some((3, 0)));
    assert_eq!(priority_of(Rule::Add), Some((15, 16)));
    assert_eq!(priority_of(Rule::Mul), Some((16, 17)));
    assert_eq!(priority_of(Rule::Pow), Some((17, 18)));
    assert_eq!(priority_of(Rule::LogicalNot), Some((19, 0)));
    assert_eq!(priority_of(Rule::FnCallOperator), Some((0, 20)));
    assert_eq!(priority_of(Rule::As), Some((20, 21)));
    assert_eq!(priority_of(Rule::LiteralInt), None);
    let (add_left, _) = priority_of(Rule::Add).unwrap();
    let (mul_left, _) = priority_of(Rule::Mul).unwrap();
    assert!(mul_left > add_left);
}

#[test]
fn categories_of_rules() {
    assert_eq!(Category::from_rule(Rule::LiteralIdent), Some(Category::Identifier));
    assert_eq!(Category::from_rule(Rule::If).unwrap().to_string(), "Keyword(`if`)");
    assert_eq!(Category::format_rules(&vec![Rule::LiteralInt, Rule::LiteralFloat]), "literal value");
    assert_eq!(Category::many_to_string(&vec![Category::EOL, Category::EOI]), "linebreak, end of input");
}

#[test]
fn token_stack_transactions() {
    let tokens = Lexer::new("a + b").all_tokens().unwrap();
    let mut stack = Stack::new(tokens);
    assert_eq!(stack.len(), 4);
    stack.start_transaction();
    assert_eq!(stack.pop().unwrap().rule(), Rule::LiteralIdent);
    assert!(stack.try_pop_a(&[Rule::Sub]).is_none());
    assert_eq!(stack.len(), 4);
    assert_eq!(stack.peek().unwrap().slice(), "a");
    stack.start_transaction();
    stack.pop();
    stack.apply_transaction();
    assert_eq!(stack.len(), 3);
    assert_eq!(stack.peek().unwrap().slice(), "+");
}

#[test]
fn token_slices_and_lines() {
    let tokens = Lexer::new("x = 1\ny").all_tokens().unwrap();
    let ident = &tokens[0];
    assert_eq!(ident.slice(), "x");
    assert_eq!(ident.line(), 1);
    let y = tokens.iter().find(|t| t.slice() == "y").unwrap();
    assert_eq!(y.line(), 2);
    assert!(ident.is_a(&[Rule::LiteralIdent]));
    let mut wide = ident.child(Rule::AssignExpr, 0..1);
    wide.include_span(4..5);
    assert_eq!(wide.span(), 0..5);
    assert_eq!(wide.rule(), Rule::AssignExpr);
}

#[test]
fn value_type_names_and_codes() {
    assert_eq!(ValueType::from_str("float"), Some(ValueType::Decimal));
    assert_eq!(ValueType::from_str("nope"), None);
    assert_eq!(ValueType::from_u8(0x24), Some(ValueType::Range));
    assert_eq!(ValueType::Object.code(), 0x22);
    assert_eq!(ValueType::Collection.to_string(), "collection");
}

#[test]
fn rule_indices() {
    assert_eq!(Rule::from_index(Rule::Pow.index()), Some(Rule::Pow));
    assert_eq!(Rule::from_index(60000), None);
    let bytes = Rule::Add.serialize_into_bytes();
    let mut reader = ByteReader::new(bytes);
    assert_eq!(Rule::deserialize_from_bytes(&mut reader).ok(), Some(Rule::Add));
}

#[test]
fn integer_encodings() {
    assert_eq!(0x0102u16.serialize_into_bytes(), vec![1, 2]);
    assert_eq!((-1i32).serialize_into_bytes(), vec![255, 255, 255, 255]);
    let mut reader = ByteReader::new(vec![0, 0, 0, 0, 0, 0, 0, 2, 7, 8, 9]);
    assert_eq!(Vec::<u8>::deserialize_from_bytes(&mut reader).ok(), Some(vec![7, 8]));
    assert_eq!(reader.remaining(), 1);
    let mut reader = ByteReader::new(vec![1]);
    assert!(u16::deserialize_from_bytes(&mut reader).is_err());
    let s = "hé".to_string().serialize_into_bytes();
    assert_eq!(s, vec![0, 0, 0, 0, 0, 0, 0, 3, b'h', 0xc3, 0xa9]);
}

#[test]
fn compiler_buffer() {
    let mut c = Compiler::new("1 + 2", CompilerOptions::default());
    assert_eq!(c.push(7), 0);
    assert_eq!(c.push_u8(9), 1);
    assert_eq!(c.push_i32(-2), 2..6);
    assert_eq!(c.push_type(ValueType::String), 6);
    c.replace(2..6, vec![0xaa]);
    assert_eq!(c.bytecode(), &[7, 9, 0xaa, 0x18]);
    assert_eq!(c.len(), 4);
    let (_, bytes) = c.decompose();
    assert_eq!(bytes, vec![7, 9, 0xaa, 0x18]);
}

#[test]
fn label_gun_counts_in_letters() {
    let mut g = LabelGun::new();
    let first = g.next();
    let second = g.next();
    assert_ne!(first, second);
}

#[test]
fn debug_profile_slices() {
    let tokens = Lexer::new("a + b").all_tokens().unwrap();
    let mut p = DebugProfile::new("a + b");
    p.insert(0, tokens[0].clone());
    p.insert(3, tokens[2].clone());
    assert_eq!(p.current_token(1).unwrap().slice(), "a");
    assert_eq!(p.current_token(5).unwrap().slice(), "b");
    let slices = p.all_slices();
    assert_eq!(slices.len(), 2);
    assert_eq!(slices[1], (3, "b".to_string()));
}

#[test]
fn docblocks() {
    let docs = FunctionDocs::parse_docblock(
        "max",
        &["a", "b"],
        &["category: Math", "Largest of two", "Returns the larger", "```lav", "max(1, 2)", "```"],
    );
    assert_eq!(docs.category, "Math");
    assert_eq!(docs.short.as_deref(), Some("Largest of two"));
    assert_eq!(docs.desc.as_deref(), Some("Returns the larger\n"));
    assert_eq!(docs.example.as_deref(), Some("max(1, 2)\n"));
    let o = docs.into_hashmap();
    assert_eq!(o.len(), 7);
    let with_example = FunctionDocs::parse_docblock(
        "max",
        &[],
        &["Largest", "```", "```lav", "max(1, 2)", "```"],
    );
    assert_eq!(with_example.category, "Misc");
    assert_eq!(with_example.desc, None);
    assert_eq!(with_example.example.as_deref(), Some(""));
    let unfenced = FunctionDocs::parse_docblock("max", &[], &["Largest", "Returns the larger"]);
    assert_eq!(unfenced.example, None);
}

#[test]
fn command_line_modes() {
    let args = vec!["-l".to_string(), "-f".to_string(), "in.lav".to_string(), "-o".to_string(), "x".to_string()];
    match CliOptions::parse(&args) {
        CliRequest::ReadFile(o, file, next) => {
            assert_eq!(o.mode(), CompilerMode::Lexer);
            assert_eq!(file, "in.lav");
            assert_eq!(next, 3);
            match o.with_src("1 + 2".to_string()).resume(&args, next) {
                CliRequest::Run(o) => {
                    assert_eq!(o.src(), "1 + 2");
                    assert_eq!(o.output(), Some("x"));
                },
                _ => panic!("expected options"),
            }
        },
        _ => panic!("expected a file to read"),
    }
    match CliOptions::parse(&vec!["--bogus".to_string()]) {
        CliRequest::Exit(code, _) => assert_ne!(code, 0),
        _ => panic!("expected an exit"),
    }
}

#[test]
fn stack_apply_without_transaction() {
    let tokens = Lexer::new("a + b").all_tokens().unwrap();
    let mut stack = Stack::new(tokens);
    stack.pop();
    assert_eq!(stack.len(), 3);
    stack.apply_transaction();
    assert_eq!(stack.len(), 3);
    assert_eq!(stack.peek().unwrap().slice(), "+");
}

#[test]
fn label_gun_labels_distinct() {
    let mut g = LabelGun::new();
    let labels: Vec<String> = (0..40).map(|_| g.next()).collect();
    assert_eq!(labels[0], "arbitrary");
    assert_eq!(labels[1], "bananas");
    assert_eq!(labels[20], "arbitrary_arbitrary");
    for i in 0..labels.len() {
        for j in (i + 1)..labels.len() {
            assert_ne!(labels[i], labels[j]);
        }
    }
}

#[test]
fn literal_braced_unicode_escapes() {
    assert_eq!(string("\"\\u{0041}\""), Ok("A".to_string()));
    assert_eq!(string("'\\u{1F600}x'"), Ok("\u{1F600}x".to_string()));
    assert_eq!(string("\"\\u0041\""), Ok("A".to_string()));
    assert!(string("\"\\u{}\"").is_err());
    assert!(string("\"\\u{0041\"").is_err());
}

#[test]
fn command_line_assembly_output() {
    let args: Vec<String> = vec!["-a", "-i", "1+2", "-o", "out.asm"].into_iter().map(String::from).collect();
    match CliOptions::parse(&args) {
        CliRequest::Run(o) => {
            assert_eq!(o.mode(), CompilerMode::Assembly);
            assert_eq!(o.src(), "1+2");
            assert_eq!(o.output(), Some("out.asm"));
            assert_eq!(o.debug_path(), None);
            assert!(!o.allow_syscalld());
        },
        _ => panic!("expected options"),
    }
}

#[test]
fn debug_profile_offset_then_slices() {
    let src = "x = 1; a + b";
    let tokens = Lexer::new(src).all_tokens().unwrap();
    let mut p = DebugProfile::new(&src[7..]);
    let mut expected = Vec::new();
    for (pos, t) in tokens.iter().filter(|t| t.span().start >= 7 && t.span().end > t.span().start).enumerate() {
        p.insert(pos, t.clone());
        expected.push((pos, t.slice().to_string()));
    }
    assert_eq!(expected.len(), 3);
    p.offset(None, 7);
    assert_eq!(p.all_slices(), expected);
}

#[test]
fn stack_revert_after_many_pops() {
    let tokens = Lexer::new("a + b * c - d").all_tokens().unwrap();
    let mut stack = Stack::new(tokens);
    let len = stack.len();
    let depth = stack.depth();
    stack.start_transaction();
    for _ in 0..5 {
        stack.pop();
    }
    assert_eq!(stack.len(), len - 5);
    stack.revert_transaction();
    assert_eq!(stack.len(), len);
    assert_eq!(stack.depth(), depth);
    assert_eq!(stack.peek().unwrap().slice(), "a");
}
