use lavendeux_parser::traits::{ByteReader, SerializeToBytes};
use lavendeux_parser::value::pattern::{convert_string_to_pattern, Anchoring};
use lavendeux_parser::value::primitive::PowerOutcome;
use lavendeux_parser::value::{
    Decimal, Number, NumberSymbol, ObjectMap, Primitive, Value, ValueError, ValueType,
};

fn pint(i: i128) -> Primitive {
    Primitive::Integer(i)
}

fn text(s: &str) -> Primitive {
    Primitive::String(s.to_string())
}

fn dec(coeff: i128, n_frac_digits: u8) -> Primitive {
    Primitive::Decimal(Number::new(Decimal { coeff, n_frac_digits }, None, None))
}

fn show(p: &Primitive) -> String {
    p.clone_text()
}

fn vint(i: i128) -> Value {
    Value::integer(i)
}

fn vstr(s: &str) -> Value {
    Value::string(s.to_string())
}

fn array(items: Vec<Value>) -> Value {
    Value::Array(items)
}

#[test]
fn primitive_addition_by_type() {
    assert!(matches!(pint(1).checked_add(pint(2)), Ok(Primitive::Integer(3))));
    assert_eq!(show(&pint(1).checked_add(text("a")).unwrap()), "1a");
    assert!(matches!(
        Primitive::Boolean(true).checked_add(Primitive::Boolean(true)),
        Ok(Primitive::Boolean(false))
    ));
    assert!(matches!(pint(i128::MAX).checked_add(pint(1)), Err(ValueError::ArithmeticOverflow)));
    assert_eq!(show(&dec(15, 1).checked_add(pint(2)).unwrap()), "3.5");
}

#[test]
fn primitive_subtraction_removes_text() {
    assert_eq!(show(&text("banana").checked_sub(text("an")).unwrap()), "ba");
    assert_eq!(show(&text("abc").checked_sub(text("")).unwrap()), "abc");
    assert!(matches!(pint(5).checked_sub(pint(7)), Ok(Primitive::Integer(-2))));
}

#[test]
fn primitive_division_truncates() {
    assert!(matches!(pint(7).checked_div(pint(-2)), Ok(Primitive::Integer(-3))));
    assert!(matches!(pint(7).checked_rem(pint(-2)), Ok(Primitive::Integer(1))));
    assert!(matches!(pint(-7).checked_rem(pint(2)), Ok(Primitive::Integer(-1))));
    assert!(matches!(pint(1).checked_div(pint(0)), Err(ValueError::ArithmeticOverflow)));
    assert!(matches!(
        text("a").checked_mul(pint(2)),
        Err(ValueError::InvalidOperationForType(ValueType::String))
    ));
    assert_eq!(show(&dec(15, 1).checked_mul(pint(2)).unwrap()), "3.0");
}

#[test]
fn primitive_negation() {
    assert_eq!(show(&text("abc").checked_neg().unwrap()), "cba");
    assert!(matches!(pint(5).checked_neg(), Ok(Primitive::Integer(-5))));
    assert!(matches!(Primitive::Boolean(false).checked_neg(), Ok(Primitive::Boolean(true))));
    assert_eq!(show(&dec(25, 1).checked_neg().unwrap()), "-2.5");
}

#[test]
fn primitive_bitwise() {
    assert!(matches!(pint(6).checked_and(pint(3)), Ok(Primitive::Integer(2))));
    assert!(matches!(pint(6).checked_or(pint(3)), Ok(Primitive::Integer(7))));
    assert!(matches!(pint(6).checked_xor(pint(3)), Ok(Primitive::Integer(5))));
    assert!(matches!(pint(1).checked_shl(pint(4)), Ok(Primitive::Integer(16))));
    assert!(matches!(pint(-16).checked_shr(pint(2)), Ok(Primitive::Integer(-4))));
    assert!(matches!(pint(0).checked_not(), Ok(Primitive::Integer(-1))));
    assert!(matches!(
        dec(1, 0).checked_and(pint(1)),
        Err(ValueError::InvalidOperationForType(ValueType::Decimal))
    ));
}

#[test]
fn primitive_comparisons() {
    assert!(matches!(text("a").checked_lt(text("b")), Ok(Primitive::Boolean(true))));
    assert!(matches!(pint(2).checked_gt(dec(15, 1)), Ok(Primitive::Boolean(true))));
    assert!(matches!(text("10").checked_lt(pint(9)), Ok(Primitive::Boolean(true))));
    assert!(matches!(dec(10, 1).checked_eq(pint(1)), Ok(Primitive::Boolean(true))));
    assert!(matches!(dec(10, 1).checked_seq(pint(1)), Ok(Primitive::Boolean(false))));
    assert!(matches!(pint(3).checked_ge(pint(3)), Ok(Primitive::Boolean(true))));
    assert!(matches!(pint(3).checked_le(pint(2)), Ok(Primitive::Boolean(false))));
    assert!(matches!(pint(3).checked_ne(text("3")), Ok(Primitive::Boolean(false))));
}

#[test]
fn primitive_logic() {
    assert!(matches!(text("").checked_logical_or(pint(0)), Ok(Primitive::Boolean(false))));
    assert!(matches!(text("x").checked_logical_and(pint(2)), Ok(Primitive::Boolean(true))));
    assert!(matches!(dec(0, 2).checked_logical_not(), Ok(Primitive::Boolean(true))));
}

#[test]
fn primitive_powers() {
    assert!(matches!(
        pint(2).checked_pow(pint(10)),
        PowerOutcome::Done(Ok(Primitive::Integer(1024)))
    ));
    assert!(matches!(
        pint(2).checked_pow(pint(200)),
        PowerOutcome::Done(Err(ValueError::ArithmeticOverflow))
    ));
    assert!(matches!(pint(-1).checked_pow(pint(3)), PowerOutcome::Done(Ok(Primitive::Integer(-1)))));
    assert!(matches!(pint(2).checked_pow(pint(-1)), PowerOutcome::Done(Err(ValueError::ArithmeticOverflow))));
    assert!(matches!(pint(-2).checked_pow(pint(127)), PowerOutcome::Done(Ok(Primitive::Integer(i128::MIN)))));
    assert!(matches!(dec(15, 1).checked_pow(pint(2)), PowerOutcome::Decimals(_, _)));
}

#[test]
fn number_text_and_symbols() {
    let n = Number::new(Decimal { coeff: 1234, n_frac_digits: 2 }, None, None);
    assert_eq!(n.to_string(), "12.34");
    let usd = Number::new(
        Decimal { coeff: 1234, n_frac_digits: 2 },
        Some(NumberSymbol::Prefix("$".to_string())),
        Some(2),
    );
    assert_eq!(usd.to_string(), "$12.34");
    let euro = Number::new(
        Decimal { coeff: 5, n_frac_digits: 0 },
        Some(NumberSymbol::Suffix("€".to_string())),
        None,
    );
    assert_eq!(euro.to_string(), "5€");
    let sum = usd.checked_add(Number::from_i128(1)).unwrap();
    assert_eq!(sum.to_string(), "$13.34");
}

#[test]
fn number_comparisons_go_by_value_then_symbol() {
    let a = Number::new(Decimal { coeff: 10, n_frac_digits: 1 }, None, None);
    let b = Number::from_i128(1);
    assert!(a.equals(&b));
    assert!(!a.precedes(&b));
    let c = Number::new(
        Decimal { coeff: 1, n_frac_digits: 0 },
        Some(NumberSymbol::Prefix("$".to_string())),
        None,
    );
    assert!(b.precedes(&c));
}

#[test]
fn primitive_bytes_roundtrip() {
    for p in [pint(-5), text("héllo"), dec(-31415, 4), Primitive::Boolean(true)] {
        let shown = show(&p);
        let ty = p.type_of();
        let bytes = p.serialize_into_bytes();
        let mut reader = ByteReader::new(bytes);
        let back = Primitive::deserialize_from_bytes(&mut reader).unwrap();
        assert_eq!(show(&back), shown);
        assert_eq!(back.type_of(), ty);
        assert_eq!(reader.remaining(), 0);
    }
    let bytes = Primitive::Boolean(false).serialize_into_bytes();
    assert_eq!(bytes, vec![0x11, 0x00]);
    let mut reader = ByteReader::new(vec![0x11, 0x02]);
    assert!(Primitive::deserialize_from_bytes(&mut reader).is_err());
    let mut reader = ByteReader::new(vec![0x21]);
    assert!(Primitive::deserialize_from_bytes(&mut reader).is_err());
}

#[test]
fn number_bytes_layout() {
    let n = Number::new(
        Decimal { coeff: 1, n_frac_digits: 1 },
        Some(NumberSymbol::Suffix("%".to_string())),
        Some(2),
    );
    let bytes = n.serialize_into_bytes();
    let mut expected = vec![0u8; 15];
    expected.push(1);
    expected.push(1);
    expected.push(2);
    expected.extend_from_slice(&[0, 0, 0, 0, 0, 0, 0, 1, b'%']);
    expected.extend_from_slice(&[1, 2]);
    assert_eq!(bytes, expected);
    let mut reader = ByteReader::new(bytes);
    let back = Number::deserialize_from_bytes(&mut reader).unwrap();
    assert_eq!(back.to_string(), "0.1%");
}

#[test]
fn object_map_keeps_first_place() {
    let mut o = ObjectMap::new();
    assert!(o.insert(text("a"), vint(1)).is_none());
    assert!(o.insert(text("b"), vint(2)).is_none());
    assert!(o.insert(text("a"), vint(3)).is_some());
    assert_eq!(o.len(), 2);
    assert_eq!(o.get(&text("a")).unwrap().to_string(), "3");
    assert!(o.contains_key(&text("b")));
    assert!(o.remove(&text("b")).is_some());
    assert!(!o.contains_key(&text("b")));
    assert_eq!(Value::Object(o).to_string(), "{`a`: 3}");
}

#[test]
fn value_text() {
    let a = array(vec![vint(1), vstr("a"), Value::boolean(true)]);
    assert_eq!(a.to_string(), "[1, `a`, true]");
    assert_eq!(Value::Range(0..3).to_string(), "0..3");
    let nested = array(vec![array(vec![]), Value::Range(-2..2)]);
    assert_eq!(nested.as_string().unwrap().to_string(), "[[], -2..2]");
}

#[test]
fn value_addition_of_collections() {
    let joined = array(vec![vint(1)]).checked_add(array(vec![vint(2)])).unwrap();
    assert_eq!(joined.to_string(), "[1, 2]");
    let appended = array(vec![vint(1)]).checked_add(vint(2)).unwrap();
    assert_eq!(appended.to_string(), "[1, 2]");
    assert!(matches!(
        Value::Range(0..2).checked_add(vint(1)),
        Err(ValueError::TypeConversion(ValueType::Range, ValueType::Primitive))
    ));
    assert!(matches!(
        Value::Range(0..2).checked_add(Value::Range(3..4)),
        Err(ValueError::InvalidOperationForType(ValueType::Range))
    ));
    let mut left = ObjectMap::new();
    left.insert(text("x"), vint(1));
    let mut right = ObjectMap::new();
    right.insert(text("x"), vint(2));
    right.insert(text("y"), vint(3));
    let merged = Value::Object(left).checked_add(Value::Object(right)).unwrap();
    assert_eq!(merged.to_string(), "{`x`: 2, `y`: 3}");
}

#[test]
fn value_indexing() {
    let a = array(vec![vint(10), vint(20), vint(30)]);
    assert_eq!(a.get_index(vint(-1)).unwrap().to_string(), "30");
    assert!(matches!(a.get_index(vint(3)), Err(ValueError::IndexOutOfBounds)));
    assert!(matches!(a.get_index(Value::Range(0..1)), Err(ValueError::ReadOnlyIndexing)));
    let slice = a.into_index(Value::Range(1..3)).unwrap();
    assert_eq!(slice.to_string(), "[20, 30]");
    assert_eq!(vstr("hello").into_index(vint(1)).unwrap().to_string(), "e");
    assert_eq!(vstr("hello").into_index(vint(-1)).unwrap().to_string(), "o");
    assert_eq!(vstr("hello").into_index(Value::Range(1..3)).unwrap().to_string(), "el");
    assert!(matches!(vstr("hi").into_index(Value::Range(1..3)), Err(ValueError::IndexOutOfBounds)));
    assert_eq!(Value::Range(0..10).into_index(vint(4)).unwrap().to_string(), "4");
    assert!(matches!(Value::Range(0..10).into_index(vint(10)), Err(ValueError::IndexOutOfBounds)));
    assert!(matches!(
        Value::boolean(true).into_index(vint(0)),
        Err(ValueError::CannotIndexInto(ValueType::Boolean))
    ));
}

#[test]
fn value_deleting_and_setting() {
    let mut a = array(vec![vint(1), vint(2), vint(3)]);
    assert_eq!(a.delete_index(vint(0)).unwrap().to_string(), "1");
    assert_eq!(a.to_string(), "[2, 3]");
    a.set_index(vint(2), vint(4)).unwrap();
    a.set_index(vint(-3), vint(0)).unwrap();
    assert_eq!(a.to_string(), "[0, 3, 4]");
    assert!(matches!(a.set_index(vint(5), vint(0)), Err(ValueError::IndexOutOfBounds)));
    let mut s = vstr("abc");
    s.set_index(vint(1), vstr("XY")).unwrap();
    assert_eq!(s.to_string(), "aXYc");
    s.set_index(vint(4), vint(9)).unwrap();
    assert_eq!(s.to_string(), "aXYc9");
    assert_eq!(s.delete_index(vint(0)).unwrap().to_string(), "a");
    assert_eq!(s.to_string(), "XYc9");
    let mut o = Value::Object(ObjectMap::new());
    o.set_index(vstr("k"), vint(1)).unwrap();
    assert_eq!(o.to_string(), "{`k`: 1}");
    assert!(matches!(o.delete_index(vstr("q")), Err(ValueError::KeyNotFound)));
}

#[test]
fn value_casts() {
    assert_eq!(vint(5).cast(ValueType::String).unwrap().to_string(), "5");
    let obj = array(vec![vstr("a"), vstr("b")]).cast(ValueType::Object).unwrap();
    assert_eq!(obj.to_string(), "{0: `a`, 1: `b`}");
    assert_eq!(Value::Range(1..4).cast(ValueType::Array).unwrap().to_string(), "[1, 2, 3]");
    assert!(matches!(
        vstr("x").cast(ValueType::Integer),
        Err(ValueError::TypeConversion(ValueType::String, ValueType::Integer))
    ));
    assert!(matches!(vint(1).cast(ValueType::Numeric), Ok(Value::Primitive(Primitive::Integer(1)))));
    assert_eq!(Value::Range(2..2).len(), 0);
    assert_eq!(vstr("é").len(), 2);
    assert!(matches!(array(vec![]).cast_boolean(), Ok(false)));
}

#[test]
fn value_matching() {
    assert!(matches!(vstr("hello").checked_contains(vstr("ell")), Ok(Value::Primitive(Primitive::Boolean(true)))));
    assert!(matches!(vstr("hello").checked_matches(vstr("/h.*o/")), Ok(Value::Primitive(Primitive::Boolean(true)))));
    assert!(matches!(vstr("hello").checked_matches(vstr("ell")), Ok(Value::Primitive(Primitive::Boolean(false)))));
    assert!(matches!(vstr("Hello").checked_matches(vstr("/hello/i")), Ok(Value::Primitive(Primitive::Boolean(true)))));
    assert!(matches!(vstr("a").checked_matches(vstr("/a/q")), Err(ValueError::InvalidRegexFlag('q'))));
    assert!(matches!(vstr("a").checked_contains(vstr("(")), Err(ValueError::RegexError)));
    assert!(matches!(vstr("hello").checked_starts_with(vstr("he")), Ok(Value::Primitive(Primitive::Boolean(true)))));
    assert!(matches!(vstr("hello").checked_ends_with(vstr("he")), Ok(Value::Primitive(Primitive::Boolean(false)))));
    assert!(matches!(
        array(vec![vint(1), vint(2)]).checked_starts_with(array(vec![vint(1)])),
        Ok(Value::Primitive(Primitive::Boolean(true)))
    ));
    assert!(matches!(
        array(vec![vint(1), vint(2)]).checked_ends_with(array(vec![vint(1)])),
        Ok(Value::Primitive(Primitive::Boolean(false)))
    ));
    assert!(matches!(
        Value::Range(0..10).checked_starts_with(Value::Range(0..5)),
        Ok(Value::Primitive(Primitive::Boolean(true)))
    ));
    assert!(matches!(
        array(vec![array(vec![vint(2)])]).checked_contains(vint(2)),
        Ok(Value::Primitive(Primitive::Boolean(true)))
    ));
    assert!(matches!(
        array(vec![vint(1), vint(2)]).checked_eq(array(vec![vint(1), vint(2)])),
        Ok(Value::Primitive(Primitive::Boolean(true)))
    ));
    assert!(matches!(
        array(vec![vint(1)]).checked_lt(array(vec![vint(1), vint(2)])),
        Ok(Value::Primitive(Primitive::Boolean(true)))
    ));
}

#[test]
fn written_patterns() {
    let (p, f) = convert_string_to_pattern("/ab+c/im", Anchoring::Anywhere).unwrap();
    assert_eq!(p, "ab+c");
    assert!(f.case_insensitive && f.multi_line && !f.dot_matches_new_line);
    let (p, _) = convert_string_to_pattern("/abc", Anchoring::Whole).unwrap();
    assert_eq!(p, "^/abc$");
    let (p, _) = convert_string_to_pattern("^x", Anchoring::Start).unwrap();
    assert_eq!(p, "^x");
    let (p, _) = convert_string_to_pattern("/a\\/b/", Anchoring::End).unwrap();
    assert_eq!(p, "a\\/b$");
    assert!(matches!(
        convert_string_to_pattern("/a/iz", Anchoring::Anywhere),
        Err(ValueError::InvalidRegexFlag('z'))
    ));
}

fn reencode(v: Value) -> Vec<u8> {
    v.serialize_into_bytes()
}

fn sample_object() -> Value {
    let mut o = ObjectMap::new();
    o.insert(pint(1), Value::Range(0..3));
    o.insert(text("k"), vstr("v"));
    Value::Object(o)
}

#[test]
fn value_encoding_of_a_range() {
    let bytes = Value::Range(1..2).serialize_into_bytes();
    let mut expected = vec![0x24];
    expected.extend(std::iter::repeat(0u8).take(15));
    expected.push(1);
    expected.extend(std::iter::repeat(0u8).take(15));
    expected.push(2);
    assert_eq!(bytes, expected);
}

#[test]
fn value_encoding_of_an_array_starts_with_its_length() {
    let bytes = array(vec![vint(1), vstr("ab")]).serialize_into_bytes();
    assert_eq!(bytes[0], 0x21);
    assert_eq!(&bytes[1..9], &[0, 0, 0, 0, 0, 0, 0, 2]);
    assert_eq!(bytes[9], 0x1f);
}

#[test]
fn values_decode_to_what_was_encoded() {
    let v = array(vec![vint(1), vstr("ab"), sample_object(), array(vec![])]);
    let bytes = reencode(array(vec![vint(1), vstr("ab"), sample_object(), array(vec![])]));
    let mut extra = bytes.clone();
    extra.push(99);
    let mut reader = ByteReader::new(extra);
    let back = Value::deserialize_from_bytes(&mut reader).unwrap();
    assert_eq!(reader.remaining(), 1);
    assert_eq!(reencode(back), bytes);
    assert_eq!(reencode(v), bytes);
}

#[test]
fn decoded_object_keeps_its_entries_in_order() {
    let bytes = sample_object().serialize_into_bytes();
    let back = Value::deserialize_from_bytes(&mut ByteReader::new(bytes)).unwrap();
    match back {
        Value::Object(o) => {
            assert_eq!(o.len(), 2);
            assert!(matches!(o.entries[0].0, Primitive::Integer(1)));
            assert!(matches!(o.entries[1].1, Value::Primitive(Primitive::String(ref s)) if s == "v"));
        }
        _ => panic!("not an object"),
    }
}

#[test]
fn unknown_value_code_is_malformed() {
    let mut reader = ByteReader::new(vec![0x99, 0, 0]);
    assert!(matches!(
        Value::deserialize_from_bytes(&mut reader),
        Err(lavendeux_parser::traits::ByteDecodeError::MalformedData(_))
    ));
}

#[test]
fn truncated_value_is_an_error() {
    let mut bytes = sample_object().serialize_into_bytes();
    bytes.pop();
    assert!(Value::deserialize_from_bytes(&mut ByteReader::new(bytes)).is_err());
    assert!(matches!(
        Value::deserialize_from_bytes(&mut ByteReader::new(vec![])),
        Err(lavendeux_parser::traits::ByteDecodeError::UnexpectedEnd)
    ));
}

fn sample_function() -> lavendeux_parser::value::Function {
    lavendeux_parser::value::Function {
        name_hash: 7,
        returns: ValueType::Integer,
        expects: vec![
            lavendeux_parser::value::FunctionArgument { name_hash: 1, ty: ValueType::Integer, default: Some(vint(3)) },
            lavendeux_parser::value::FunctionArgument { name_hash: 2, ty: ValueType::All, default: None },
        ],
        debug: Some(lavendeux_parser::compiler::DebugProfile::new("a + b")),
        docs: lavendeux_parser::compiler::FunctionDocs::parse_docblock("f", &["a", "b"], &["Adds things"]),
        body: vec![1, 2, 3],
    }
}

#[test]
fn functions_decode_to_what_was_encoded() {
    let bytes = sample_function().serialize_into_bytes();
    assert_eq!(&bytes[0..9], &[0, 0, 0, 0, 0, 0, 0, 7, 0x12]);
    let f = lavendeux_parser::value::Function::deserialize_from_bytes(&mut ByteReader::new(bytes.clone())).unwrap();
    assert_eq!(f.name_hash, 7);
    assert_eq!(f.returns, ValueType::Integer);
    assert_eq!(f.expects.len(), 2);
    assert_eq!(f.expects[1].ty, ValueType::All);
    assert!(f.expects[1].default.is_none());
    assert_eq!(f.body, vec![1, 2, 3]);
    assert_eq!(f.docs.name, "f");
    assert_eq!(f.serialize_into_bytes(), bytes);
}

#[test]
fn function_with_bad_return_type_is_malformed() {
    let mut bytes = sample_function().serialize_into_bytes();
    bytes[8] = 0x00;
    assert!(matches!(
        lavendeux_parser::value::Function::deserialize_from_bytes(&mut ByteReader::new(bytes)),
        Err(lavendeux_parser::traits::ByteDecodeError::MalformedData(_))
    ));
}

#[test]
fn function_values_roundtrip_through_bytes() {
    let bytes = Value::Function(sample_function()).serialize_into_bytes();
    assert_eq!(bytes[0], 0x41);
    let back = Value::deserialize_from_bytes(&mut ByteReader::new(bytes.clone())).unwrap();
    assert_eq!(reencode(back), bytes);
}

#[test]
fn docs_and_profiles_roundtrip_through_bytes() {
    let docs = lavendeux_parser::compiler::FunctionDocs::parse_docblock("g", &["x"], &["@category Math", "Short text"]);
    let bytes = docs.clone().serialize_into_bytes();
    let back = lavendeux_parser::compiler::FunctionDocs::deserialize_from_bytes(&mut ByteReader::new(bytes)).unwrap();
    assert_eq!(back, docs);
    let profile = lavendeux_parser::compiler::DebugProfile::new("1 + 2");
    let bytes = profile.serialize_into_bytes();
    let back = lavendeux_parser::compiler::DebugProfile::deserialize_from_bytes(&mut ByteReader::new(bytes.clone())).unwrap();
    assert_eq!(back.serialize_into_bytes(), bytes);
}

#[test]
fn values_change_in_place_through_their_index() {
    let mut a = array(vec![vint(1), vint(2), vint(3)]);
    *a.mut_index(&vint(-1)).unwrap() = vint(9);
    *a.mut_index(&vint(0)).unwrap() = vstr("x");
    match &a {
        Value::Array(items) => {
            assert!(matches!(items[2], Value::Primitive(Primitive::Integer(9))));
            assert!(matches!(items[0], Value::Primitive(Primitive::String(ref s)) if s == "x"));
        }
        _ => panic!("not an array"),
    }
    assert!(matches!(a.mut_index(&vint(3)), Err(ValueError::IndexOutOfBounds)));
    assert!(matches!(a.mut_index(&vint(-4)), Err(ValueError::IndexOutOfBounds)));
    assert!(matches!(a.mut_index(&Value::Range(0..1)), Err(ValueError::ReadOnlyIndexing)));
    assert!(matches!(a.mut_index(&vstr("k")), Err(ValueError::CannotIndexUsing(ValueType::String))));
    let mut o = sample_object();
    *o.mut_index(&vstr("k")).unwrap() = vint(5);
    assert!(matches!(o.mut_index(&vstr("k")), Ok(Value::Primitive(Primitive::Integer(5)))));
    assert!(matches!(o.mut_index(&vstr("missing")), Err(ValueError::KeyNotFound)));
    assert!(matches!(vstr("abc").mut_index(&vint(0)), Err(ValueError::ReadOnlyIndexing)));
    assert!(matches!(vint(1).mut_index(&vint(0)), Err(ValueError::CannotIndexInto(ValueType::Integer))));
}

#[test]
fn value_delete_string_range() {
    let mut v = vstr("hello");
    let removed = v.delete_index(Value::Range(1..3)).unwrap();
    assert_eq!(removed.to_string(), "el");
    assert_eq!(v.to_string(), "hlo");
}

#[test]
fn number_smallest_coefficient() {
    let min = || Number::new(Decimal { coeff: i128::MIN, n_frac_digits: 0 }, None, None);
    let minus_one = || Number::new(Decimal::from_int(-1), None, None);
    assert!(matches!(min().checked_rem(minus_one()), Err(ValueError::ArithmeticOverflow)));
    assert!(matches!(min().checked_div(minus_one()), Err(ValueError::ArithmeticOverflow)));
    assert_eq!(min().to_string(), "-170141183460469231731687303715884105728");
    let frac = Number::new(Decimal { coeff: i128::MIN, n_frac_digits: 3 }, None, None);
    assert_eq!(frac.to_string(), "-170141183460469231731687303715884105.728");
}

#[test]
fn number_rounds_to_precision() {
    let n = Number::new(Decimal { coeff: 12345, n_frac_digits: 3 }, None, Some(1));
    assert_eq!(n.to_string(), "12.3");
    let r = Number::new(Decimal { coeff: 12345, n_frac_digits: 3 }, None, None).round(2).unwrap();
    assert_eq!(r.to_string(), "12.34");
}

#[test]
fn number_division_rounds_quotient() {
    let six = Number::new(Decimal::from_int(6), None, None);
    let four = Number::new(Decimal::from_int(4), None, None);
    assert_eq!(six.checked_div(four).unwrap().to_string(), "1.5");
    let one = Number::new(Decimal::from_int(1), None, None);
    let three = Number::new(Decimal::from_int(3), None, None);
    assert_eq!(one.checked_div(three).unwrap().to_string(), "0.333333333333333333");
    let big = Number::new(Decimal::from_int(i128::MAX), None, None);
    let tiny = Number::new(Decimal { coeff: 3, n_frac_digits: 18 }, None, None);
    assert!(matches!(big.checked_div(tiny), Err(ValueError::ArithmeticOverflow)));
}

#[test]
fn number_mixed_precision_rounds_operands() {
    let dollars = Number::new(
        Decimal { coeff: 100, n_frac_digits: 2 },
        Some(NumberSymbol::Prefix("$".to_string())),
        Some(2),
    );
    let eighth = Number::new(Decimal { coeff: 125, n_frac_digits: 3 }, None, None);
    assert_eq!(dollars.checked_add(eighth).unwrap().to_string(), "$1.12");
}

#[test]
fn number_remainder_aligns_digits() {
    let a = Number::new(Decimal { coeff: 75, n_frac_digits: 1 }, None, None);
    let b = Number::new(Decimal { coeff: 2, n_frac_digits: 0 }, None, None);
    assert_eq!(a.checked_rem(b).unwrap().to_string(), "1.5");
    let neg = Number::new(Decimal { coeff: -75, n_frac_digits: 1 }, None, None);
    let b2 = Number::new(Decimal { coeff: 2, n_frac_digits: 0 }, None, None);
    assert_eq!(neg.checked_rem(b2).unwrap().to_string(), "-1.5");
}
