//! Values of the language: their types, numbers, primitives, collections,
//! functions and errors.
pub mod error;
pub mod function;
pub mod number;
pub mod object;
pub mod bytes;
pub mod pattern;
pub mod primitive;
pub mod types;

pub use error::ValueError;
pub use function::{Function, FunctionArgument};
pub use number::{Decimal, Number, NumberSymbol};
pub use object::ObjectMap;
pub use primitive::Primitive;
pub use types::ValueType;

use crate::compiler::function_docs::docs_object;
use crate::text::{byte_cut, byte_splice, byte_substring, chars_of, i128_string, int_text, string_from_chars, utf8_of};
use vstd::utf8::is_char_boundary;
use crate::value::pattern::{checked_regex, regex_outcome, Anchoring};
use crate::value::object::{find_key, inserted_into, lemma_find_key_none, reverse_vec};
use crate::value::primitive::{
    as_number, int_value, prim_bit_and, prim_bit_or, prim_bit_xor, prim_difference,
    prim_bit_not, prim_eq, prim_negation, prim_sum, prim_equal_outcome, prim_ge_outcome, prim_gt_outcome, prim_int, prim_le_outcome,
    prim_logical_and, prim_lt_outcome, prim_unequal_outcome, prim_logical_or, prim_product, prim_quotient,
    prim_remainder, prim_resolves, prim_shift_left, prim_shift_right, prim_text, prim_type,
    resolved_type, truth,
};
use vstd::prelude::*;

verus! {

/// A value of the language
#[derive(Debug)]
pub enum Value {
    /// A single primitive value
    Primitive(Primitive),
    /// A function, which can be called
    Function(Function),
    /// An array of values of any types
    Array(Vec<Value>),
    /// A map of primitive keys to values
    Object(ObjectMap),
    /// A range of integers, the end excluded
    Range(std::ops::Range<i128>),
}

/// The type of a value
pub open spec fn type_of_value(v: Value) -> ValueType {
    match v {
        Value::Primitive(p) => prim_type(p),
        Value::Function(_) => ValueType::Function,
        Value::Array(_) => ValueType::Array,
        Value::Object(_) => ValueType::Object,
        Value::Range(_) => ValueType::Range,
    }
}

/// A value of type `own` is of type `t`: the type itself, the group it
/// belongs to, or all types
pub open spec fn type_includes(own: ValueType, t: ValueType) -> bool {
    ||| own == t
    ||| t == ValueType::All
    ||| t == ValueType::Primitive && (own == ValueType::Boolean || own == ValueType::Integer
        || own == ValueType::Decimal || own == ValueType::String)
    ||| t == ValueType::Collection && (own == ValueType::Array || own == ValueType::Object || own
        == ValueType::Range)
    ||| t == ValueType::Numeric && (own == ValueType::Boolean || own == ValueType::Integer || own
        == ValueType::Decimal)
}

/// The length of a value: the number of elements of an array or object, the
/// span of a range, the number of UTF-8 bytes of a string; one for the rest
pub open spec fn value_len(v: Value) -> int {
    match v {
        Value::Array(a) => a@.len() as int,
        Value::Object(o) => o.entries().len() as int,
        Value::Range(r) => r.end - r.start,
        Value::Primitive(Primitive::String(s)) => vstd::utf8::encode_utf8(s@).len() as int,
        _ => 1,
    }
}

/// The truth of a value: that of a primitive; a collection that is not empty;
/// a range whose start is not below its end; none for a function
pub open spec fn value_truth(v: Value) -> Option<bool> {
    match v {
        Value::Primitive(p) => Some(truth(p)),
        Value::Array(a) => Some(a@.len() > 0),
        Value::Object(o) => Some(o.entries().len() > 0),
        Value::Range(r) => Some(r.start >= r.end),
        Value::Function(_) => None,
    }
}

/// The group a type belongs to for resolving: the primitive types are all
/// primitives; the others stand alone
pub open spec fn category(t: ValueType) -> ValueType {
    if t == ValueType::Boolean || t == ValueType::Integer || t == ValueType::Decimal || t
        == ValueType::String {
        ValueType::Primitive
    } else {
        t
    }
}

/// `a` holds the elements of `v` as an array
pub open spec fn array_of(v: Value, a: Seq<Value>) -> bool {
    match v {
        Value::Primitive(p) => a == seq![Value::Primitive(p)],
        Value::Array(b) => a == b@,
        Value::Object(o) => a == o.entries().map_values(|e: (Primitive, Value)| e.1),
        Value::Range(rg) => a == range_values(rg.start, rg.end),
        Value::Function(_) => false,
    }
}

/// `s` holds the entries of `v` as an object
pub open spec fn object_of(v: Value, s: Seq<(Primitive, Value)>) -> bool {
    match v {
        Value::Primitive(p) => s == seq![(Primitive::Integer(0), Value::Primitive(p))],
        Value::Array(a) => s == indexed_entries(a@),
        Value::Object(o) => s == o.entries(),
        Value::Range(rg) => s == indexed_entries(range_values(rg.start, rg.end)),
        Value::Function(f) => docs_object(f.docs@, s),
    }
}

/// What resolving two values of different types gives
pub open spec fn resolves(v: Value, w: Value, r: Result<(Value, Value), ValueError>) -> bool {
    let (ta, tb) = (category(type_of_value(v)), category(type_of_value(w)));
    if ta == ValueType::Primitive && tb == ValueType::Primitive {
        r matches Ok((Value::Primitive(a), Value::Primitive(b))) && prim_resolves(
            v->Primitive_0,
            w->Primitive_0,
            a,
            b,
        )
    } else if (ta == ValueType::Primitive || ta == ValueType::Range) && tb == ValueType::Array {
        r matches Ok((Value::Array(a), y)) && array_of(v, a@) && y == w
    } else if (ta == ValueType::Primitive || ta == ValueType::Array || ta == ValueType::Range) && tb
        == ValueType::Object {
        r matches Ok((Value::Object(o), y)) && object_of(v, o.entries()) && y == w
    } else if ta == ValueType::Array && (tb == ValueType::Primitive || tb == ValueType::Range) {
        r matches Ok((x, Value::Array(a))) && x == v && array_of(w, a@)
    } else if ta == ValueType::Object && (tb == ValueType::Primitive || tb == ValueType::Array || tb
        == ValueType::Range) {
        r matches Ok((x, Value::Object(o))) && x == v && object_of(w, o.entries())
    } else {
        r == Err::<(Value, Value), ValueError>(ValueError::TypeConversion(ta, tb))
    }
}

/// An index counted from the end when it is negative
pub open spec fn adjusted(len: int, i: i128) -> i128 {
    if i < 0 {
        (len + i) as i128
    } else {
        i
    }
}

/// The position an integer index names in a collection of `len` elements
pub open spec fn slot(len: int, i: i128) -> usize {
    adjusted(len, i) as usize
}

/// Reading an array at an index after setting it there gives the value set:
/// both go to the same position, counted from the end when negative
pub proof fn lemma_array_set_then_get(a: Seq<Value>, i: i128, v: Value)
    requires
        a.len() <= usize::MAX,
        0 <= adjusted(a.len() as int, i) < a.len(),
    ensures
        slot(a.len() as int, i) as int == adjusted(a.len() as int, i) as int,
        a.update(adjusted(a.len() as int, i) as int, v)[slot(a.len() as int, i) as int] == v,
{
}

/// The string of one character
pub open spec fn is_char_string(v: Value, c: char) -> bool {
    v matches Value::Primitive(Primitive::String(t)) && t@ == seq![c]
}

/// A byte range of a string that ends inside it and does not run backwards
pub open spec fn byte_range_fits(s: Seq<char>, rg: std::ops::Range<i128>) -> bool {
    let (st, en) = (rg.start as usize, rg.end as usize);
    st <= en && en <= utf8_of(s).len()
}

/// The bounds of a byte range of a string fall on character boundaries
pub open spec fn byte_range_on_boundaries(s: Seq<char>, rg: std::ops::Range<i128>) -> bool {
    is_char_boundary(utf8_of(s), (rg.start as usize) as int) && is_char_boundary(
        utf8_of(s),
        (rg.end as usize) as int,
    )
}

/// A byte range that indexes into a string and fits it falls on character
/// boundaries
pub open spec fn slice_on_boundaries(v: Value, index: Value) -> bool {
    match (v, index) {
        (Value::Primitive(Primitive::String(s)), Value::Range(rg)) => byte_range_fits(s@, rg)
            ==> byte_range_on_boundaries(s@, rg),
        _ => true,
    }
}

/// Deleting the character at a position of a string removes one byte there,
/// which must be a character of its own
pub open spec fn char_delete_on_boundaries(v: Value, index: Value) -> bool {
    match (v, index) {
        (Value::Primitive(Primitive::String(s)), Value::Primitive(Primitive::Integer(i))) => {
            let p = slot(utf8_of(s@).len() as int, i);
            p < s@.len() ==> is_char_boundary(utf8_of(s@), p as int) && is_char_boundary(
                utf8_of(s@),
                p + 1,
            )
        },
        _ => true,
    }
}

/// The integer of an index value, where it has one
pub open spec fn int_index(index: Value) -> Option<i128> {
    match index {
        Value::Primitive(p) => match prim_int(p) {
            Some(i) => Some(i as i128),
            None => None,
        },
        _ => None,
    }
}

/// Setting an index in place touches an existing element of an array, or a
/// byte of a string that is a character of its own
pub open spec fn set_index_in_bounds(v: Value, index: Value, value: Value) -> bool {
    match (v, int_index(index)) {
        (Value::Array(a), Some(i)) => adjusted(a@.len() as int, i) < a@.len() ==> adjusted(
            a@.len() as int,
            i,
        ) >= 0,
        (Value::Primitive(Primitive::String(s)), Some(i)) => {
            let n = utf8_of(s@).len() as int;
            let j = adjusted(n, i);
            string_text(value) is Some && j < n ==> j >= 0 && is_char_boundary(utf8_of(s@), j as int)
                && is_char_boundary(utf8_of(s@), j + 1)
        },
        _ => true,
    }
}

/// What casting a value to a type it is not of gives
pub open spec fn casts_to(v: Value, t: ValueType, r: Result<Value, ValueError>) -> bool {
    let own = type_of_value(v);
    let fail = Err::<Value, ValueError>(ValueError::TypeConversion(own, t));
    match t {
        ValueType::Boolean => match value_truth(v) {
            Some(b) => r == Ok::<Value, ValueError>(Value::Primitive(Primitive::Boolean(b))),
            None => r == fail,
        },
        ValueType::Integer => match int_index(v) {
            Some(i) => r == Ok::<Value, ValueError>(Value::Primitive(Primitive::Integer(i))),
            None => r == fail,
        },
        ValueType::Decimal | ValueType::Numeric => if v matches Value::Primitive(p) && !(p is String) {
            r == Ok::<Value, ValueError>(Value::Primitive(Primitive::Decimal(as_number(v->Primitive_0))))
        } else if t == ValueType::Decimal {
            r == fail
        } else {
            r == Err::<Value, ValueError>(ValueError::TypeConversion(own, ValueType::Decimal))
        },
        ValueType::String => match string_text(v) {
            Some(text) => r matches Ok(Value::Primitive(Primitive::String(s))) && s@ == text,
            None => r == fail,
        },
        ValueType::Array | ValueType::Collection => if v is Function {
            r == Err::<Value, ValueError>(ValueError::TypeConversion(own, ValueType::Array))
        } else {
            r matches Ok(Value::Array(a)) && array_of(v, a@)
        },
        ValueType::Object => r matches Ok(Value::Object(o)) && object_of(v, o.entries()),
        ValueType::Primitive => r == Err::<Value, ValueError>(
            ValueError::TypeConversion(own, ValueType::Primitive),
        ),
        _ => r == fail,
    }
}

/// `v` is the string whose bytes are those of `s` in the byte range
pub open spec fn is_byte_slice(v: Value, s: Seq<char>, rg: std::ops::Range<i128>) -> bool {
    v matches Value::Primitive(Primitive::String(t)) && utf8_of(t@) == utf8_of(s).subrange(
        (rg.start as usize) as int,
        (rg.end as usize) as int,
    )
}

/// A text has no more characters than UTF-8 bytes
pub proof fn lemma_chars_within_bytes(s: Seq<char>)
    ensures
        s.len() <= utf8_of(s).len(),
    decreases s.len(),
{
    if s.len() > 0 {
        lemma_chars_within_bytes(s.drop_first());
        vstd::utf8::encode_utf8_first_scalar(s);
    }
}

/// The debug text of a primitive: its text, a string between backticks
pub open spec fn prim_debug(p: Primitive) -> Seq<char> {
    match p {
        Primitive::String(s) => seq!['`'] + s@ + seq!['`'],
        _ => prim_text(p),
    }
}

/// The debug text of a value: a primitive's, a function's signature, the
/// elements of an array between brackets and joined by commas, each entry of
/// an object as `key: value, ` between braces, a range as `start..end`
pub open spec fn value_debug(v: Value) -> Seq<char>
    decreases v,
{
    match v {
        Value::Primitive(p) => prim_debug(p),
        Value::Function(f) => f.docs.signature@,
        Value::Array(a) => seq!['['] + items_debug(a@) + seq![']'],
        Value::Object(o) => seq!['{'] + entries_debug(o.entries@) + seq!['}'],
        Value::Range(r) => int_text(r.start as int) + seq!['.', '.'] + int_text(r.end as int),
    }
}

/// The debug texts of values joined by commas
pub open spec fn items_debug(s: Seq<Value>) -> Seq<char>
    decreases s,
{
    if s.len() == 0 {
        Seq::empty()
    } else if s.len() == 1 {
        value_debug(s[0])
    } else {
        items_debug(s.drop_last()) + seq![',', ' '] + value_debug(s.last())
    }
}

/// The debug text of each entry as `key: value, `
pub open spec fn entries_debug(s: Seq<(Primitive, Value)>) -> Seq<char>
    decreases s,
{
    if s.len() == 0 {
        Seq::empty()
    } else {
        entries_debug(s.drop_last()) + prim_debug(s.last().0) + seq![':', ' '] + value_debug(s.last().1)
            + seq![',', ' ']
    }
}

/// The debug texts of entries as `key: value`, joined by commas
pub open spec fn entries_joined(s: Seq<(Primitive, Value)>) -> Seq<char>
    decreases s.len(),
{
    if s.len() == 0 {
        Seq::empty()
    } else if s.len() == 1 {
        prim_debug(s[0].0) + seq![':', ' '] + value_debug(s[0].1)
    } else {
        entries_joined(s.drop_last()) + seq![',', ' '] + prim_debug(s.last().0) + seq![':', ' ']
            + value_debug(s.last().1)
    }
}

/// The text of a value as a string: a primitive's text; the debug text of
/// an array; an object's entries as `key: value` joined by commas between
/// braces; a range as `start..end`; none for a function
pub open spec fn string_text(v: Value) -> Option<Seq<char>> {
    match v {
        Value::Primitive(p) => Some(prim_text(p)),
        Value::Array(_) => Some(value_debug(v)),
        Value::Object(o) => Some(seq!['{'] + entries_joined(o.entries@) + seq!['}']),
        Value::Range(_) => Some(value_debug(v)),
        Value::Function(_) => None,
    }
}

fn push_str(out: &mut Vec<char>, s: &str)
    ensures
        final(out)@ == old(out)@ + s@,
{
    let mut v = chars_of(s);
    out.append(&mut v);
}

fn push_prim_debug(p: &Primitive, out: &mut Vec<char>)
    ensures
        final(out)@ == old(out)@ + prim_debug(*p),
{
    match p {
        Primitive::String(s) => {
            out.push('`');
            push_str(out, s.as_str());
            out.push('`');
            assert(out@ =~= old(out)@ + prim_debug(*p));
        },
        _ => {
            let t = p.clone_text();
            push_str(out, t.as_str());
        },
    }
}

fn push_value_debug(v: &Value, out: &mut Vec<char>)
    ensures
        final(out)@ == old(out)@ + value_debug(*v),
    decreases v,
{
    match v {
        Value::Primitive(p) => push_prim_debug(p, out),
        Value::Function(f) => push_str(out, f.docs.signature.as_str()),
        Value::Array(a) => {
            let ghost start = out@;
            out.push('[');
            let mut i: usize = 0;
            while i < a.len()
                invariant
                    i <= a@.len(),
                    *v == Value::Array(*a),
                    out@ == start + seq!['['] + items_debug(a@.take(i as int)),
                decreases a@.len() - i,
            {
                let ghost before = out@;
                if i > 0 {
                    out.push(',');
                    out.push(' ');
                }
                proof {
                    assert(decreases_to!(*v => (*v)->Array_0));
                    assert(decreases_to!(*a => a@));
                    assert(decreases_to!(a@ => a@[i as int]));
                }
                push_value_debug(&a[i], out);
                proof {
                    let t = a@.take(i + 1);
                    assert(t.drop_last() =~= a@.take(i as int));
                    assert(t.last() == a@[i as int]);
                    if i == 0 {
                        assert(items_debug(a@.take(0)) =~= Seq::<char>::empty());
                    }
                }
                i = i + 1;
                assert(out@ =~= start + seq!['['] + items_debug(a@.take(i as int)));
            }
            out.push(']');
            assert(a@.take(a@.len() as int) =~= a@);
            assert(out@ =~= start + value_debug(*v));
        },
        Value::Object(o) => {
            let ghost start = out@;
            out.push('{');
            let mut i: usize = 0;
            while i < o.entries.len()
                invariant
                    i <= o.entries@.len(),
                    *v == Value::Object(*o),
                    out@ == start + seq!['{'] + entries_debug(o.entries@.take(i as int)),
                decreases o.entries@.len() - i,
            {
                push_prim_debug(&o.entries[i].0, out);
                out.push(':');
                out.push(' ');
                proof {
                    assert(decreases_to!(*v => (*v)->Object_0));
                    assert(decreases_to!(*o => o.entries));
                    assert(decreases_to!(o.entries => o.entries@));
                    assert(decreases_to!(o.entries@ => o.entries@[i as int]));
                    assert(decreases_to!(o.entries@[i as int] => o.entries@[i as int].1));
                }
                push_value_debug(&o.entries[i].1, out);
                out.push(',');
                out.push(' ');
                proof {
                    let t = o.entries@.take(i + 1);
                    assert(t.drop_last() =~= o.entries@.take(i as int));
                }
                i = i + 1;
                assert(out@ =~= start + seq!['{'] + entries_debug(o.entries@.take(i as int)));
            }
            out.push('}');
            assert(o.entries@.take(o.entries@.len() as int) =~= o.entries@);
            assert(out@ =~= start + value_debug(*v));
        },
        Value::Range(r) => {
            push_str(out, i128_string(r.start).as_str());
            out.push('.');
            out.push('.');
            push_str(out, i128_string(r.end).as_str());
            assert(out@ =~= old(out)@ + value_debug(*v));
        },
    }
}

/// Two values are equal: primitives of one type with equal contents, arrays
/// with equal elements in order, objects with the same keys holding equal
/// values, ranges with the same bounds; a function equals nothing
pub open spec fn value_eq(v: Value, w: Value) -> bool
    decreases v,
{
    match (v, w) {
        (Value::Primitive(p), Value::Primitive(q)) => prim_eq(p, q),
        (Value::Array(a), Value::Array(b)) => items_eq(a@, b@),
        (Value::Object(a), Value::Object(b)) => a.entries@.len() == b.entries@.len() && entries_within(
            a.entries@,
            b.entries@,
        ),
        (Value::Range(a), Value::Range(b)) => a.start == b.start && a.end == b.end,
        _ => false,
    }
}

/// The sequences have the same length and equal values at each position
pub open spec fn items_eq(s: Seq<Value>, t: Seq<Value>) -> bool
    decreases s,
{
    if s.len() != t.len() {
        false
    } else if s.len() == 0 {
        true
    } else {
        items_eq(s.drop_last(), t.drop_last()) && value_eq(s.last(), t.last())
    }
}

/// Each key of `s` is in `t`, with an equal value
pub open spec fn entries_within(s: Seq<(Primitive, Value)>, t: Seq<(Primitive, Value)>) -> bool
    decreases s,
{
    if s.len() == 0 {
        true
    } else {
        entries_within(s.drop_last(), t) && match find_key(t, s.last().0) {
            Some(j) => value_eq(s.last().1, t[j].1),
            None => false,
        }
    }
}

/// The elements a value has as an array
pub open spec fn array_elems(v: Value) -> Seq<Value> {
    match v {
        Value::Primitive(p) => seq![Value::Primitive(p)],
        Value::Array(a) => a@,
        Value::Object(o) => o.entries().map_values(|e: (Primitive, Value)| e.1),
        Value::Range(rg) => range_values(rg.start, rg.end),
        Value::Function(_) => Seq::empty(),
    }
}

/// The entries a value that is not a function has as an object
pub open spec fn object_elems(v: Value) -> Seq<(Primitive, Value)> {
    match v {
        Value::Primitive(p) => seq![(Primitive::Integer(0), Value::Primitive(p))],
        Value::Array(a) => indexed_entries(a@),
        Value::Object(o) => o.entries(),
        Value::Range(rg) => indexed_entries(range_values(rg.start, rg.end)),
        Value::Function(_) => Seq::empty(),
    }
}

/// The type two values resolve to: their own when they share it, the
/// primitive group for two primitives, an array or object where one of them
/// converts; the conversion error otherwise
pub open spec fn resolution(v: Value, w: Value) -> Result<ValueType, ValueError> {
    let (ta, tb) = (type_of_value(v), type_of_value(w));
    let (ca, cb) = (category(ta), category(tb));
    if ta == tb {
        Ok(ta)
    } else if ca == ValueType::Primitive && cb == ValueType::Primitive {
        Ok(ValueType::Primitive)
    } else if ((ca == ValueType::Primitive || ca == ValueType::Range) && cb == ValueType::Array) || (ca
        == ValueType::Array && (cb == ValueType::Primitive || cb == ValueType::Range)) {
        Ok(ValueType::Array)
    } else if ((ca == ValueType::Primitive || ca == ValueType::Array || ca == ValueType::Range) && cb
        == ValueType::Object) || (ca == ValueType::Object && (cb == ValueType::Primitive || cb
        == ValueType::Array || cb == ValueType::Range)) {
        Ok(ValueType::Object)
    } else {
        Err(ValueError::TypeConversion(ca, cb))
    }
}

/// The outcome of an operation on values as one on primitives; none where it
/// holds a value that is not a primitive
pub open spec fn prim_outcome(r: Result<Value, ValueError>) -> Option<Result<Primitive, ValueError>> {
    match r {
        Ok(Value::Primitive(x)) => Some(Ok(x)),
        Ok(_) => None,
        Err(e) => Some(Err(e)),
    }
}

/// What an operation that only primitives have gives: the primitive
/// operation for two primitives; for other values, the error of resolving
/// them, or that the type they resolve to has no such operation
pub open spec fn primitive_only(
    v: Value,
    w: Value,
    r: Result<Value, ValueError>,
    op: spec_fn(Primitive, Primitive, Result<Primitive, ValueError>) -> bool,
) -> bool {
    match (v, w) {
        (Value::Primitive(p), Value::Primitive(q)) => prim_outcome(r) matches Some(x) && op(p, q, x),
        _ => match resolution(v, w) {
            Ok(t) => r == Err::<Value, ValueError>(ValueError::InvalidOperationForType(t)),
            Err(e) => r == Err::<Value, ValueError>(e),
        },
    }
}

/// A shift between two primitives that resolve to integers is by 0 to 127
/// places
pub open spec fn shift_in_range(v: Value, w: Value) -> bool {
    match (v, w) {
        (Value::Primitive(p), Value::Primitive(q)) => resolved_type(p, q) == ValueType::Integer ==> 0
            <= int_value(q) < 128,
        _ => true,
    }
}

/// The span of a range value
pub open spec fn span(v: Value) -> int {
    match v {
        Value::Range(r) => r.end - r.start,
        _ => 0,
    }
}

/// Comparing two ranges subtracts their bounds without overflow
pub open spec fn spans_fit(v: Value, w: Value) -> bool {
    match (v, w) {
        (Value::Range(a), Value::Range(b)) => i128::MIN <= a.end - a.start <= i128::MAX && i128::MIN
            <= b.end - b.start <= i128::MAX,
        _ => true,
    }
}

/// What ordering two values gives: the primitive comparison for two
/// primitives; the sizes of arrays, objects and ranges they resolve to;
/// false for functions; the error of resolving them
pub open spec fn value_order(
    v: Value,
    w: Value,
    r: Result<Value, ValueError>,
    prim: spec_fn(Primitive, Primitive, Result<Primitive, ValueError>) -> bool,
    size: spec_fn(int, int) -> bool,
) -> bool {
    match (v, w) {
        (Value::Primitive(p), Value::Primitive(q)) => prim_outcome(r) matches Some(x) && prim(p, q, x),
        _ => match resolution(v, w) {
            Err(e) => r == Err::<Value, ValueError>(e),
            Ok(ValueType::Array) => r == Ok::<Value, ValueError>(
                Value::Primitive(Primitive::Boolean(size(array_elems(v).len() as int, array_elems(w).len() as int))),
            ),
            Ok(ValueType::Object) => r == Ok::<Value, ValueError>(
                Value::Primitive(Primitive::Boolean(size(object_elems(v).len() as int, object_elems(w).len() as int))),
            ),
            Ok(ValueType::Range) => r == Ok::<Value, ValueError>(
                Value::Primitive(Primitive::Boolean(size(span(v), span(w)))),
            ),
            Ok(_) => r == Ok::<Value, ValueError>(Value::Primitive(Primitive::Boolean(false))),
        },
    }
}

/// Equal collections, as `value_eq` has them, once resolved
pub open spec fn collections_equal(v: Value, w: Value) -> bool {
    match resolution(v, w) {
        Ok(ValueType::Array) => items_eq(array_elems(v), array_elems(w)),
        Ok(ValueType::Object) => object_elems(v).len() == object_elems(w).len() && entries_within(
            object_elems(v),
            object_elems(w),
        ),
        Ok(ValueType::Range) => span(v) == span(w) && v->Range_0.start == w->Range_0.start,
        _ => false,
    }
}

/// What comparing two values for (in)equality gives: the primitive
/// comparison for two primitives; whether the collections they resolve to
/// are equal, or differ; false for functions; the error of resolving them
pub open spec fn value_equality(
    v: Value,
    w: Value,
    r: Result<Value, ValueError>,
    prim: spec_fn(Primitive, Primitive, Result<Primitive, ValueError>) -> bool,
    differ: bool,
) -> bool {
    match (v, w) {
        (Value::Primitive(p), Value::Primitive(q)) => prim_outcome(r) matches Some(x) && prim(p, q, x),
        _ => match resolution(v, w) {
            Err(e) => r == Err::<Value, ValueError>(e),
            Ok(ValueType::Array) | Ok(ValueType::Object) | Ok(ValueType::Range) => r == Ok::<
                Value,
                ValueError,
            >(Value::Primitive(Primitive::Boolean(collections_equal(v, w) != differ))),
            Ok(_) => r == Ok::<Value, ValueError>(Value::Primitive(Primitive::Boolean(false))),
        },
    }
}

/// The outcome of matching a text against a written pattern, as a value
pub open spec fn regex_value(text: Seq<char>, pattern: Seq<char>, anchoring: Anchoring) -> Result<
    Value,
    ValueError,
> {
    match regex_outcome(text, pattern, anchoring) {
        Ok(b) => Ok(Value::Primitive(Primitive::Boolean(b))),
        Err(e) => Err(e),
    }
}

/// Two primitives of which one is a string: they resolve to two strings
pub open spec fn text_pair(v: Value, w: Value) -> bool {
    v matches Value::Primitive(p) && w matches Value::Primitive(q) && (p is String || q is String)
}

/// The type whose operation fails for two values that resolve to neither
/// strings nor collections: the common primitive type, or their own type
pub open spec fn failing_type(v: Value, w: Value) -> ValueType {
    match (v, w) {
        (Value::Primitive(p), Value::Primitive(q)) => resolved_type(p, q),
        _ => type_of_value(v),
    }
}

/// `e` is an array with the elements `s`
pub open spec fn holds_array(e: Value, s: Seq<Value>) -> bool {
    e matches Value::Array(x) && items_eq(x@, s)
}

/// `b` is a prefix of `a`, element by element
pub open spec fn items_prefix(a: Seq<Value>, b: Seq<Value>) -> bool {
    b.len() <= a.len() && items_eq(a.take(b.len() as int), b)
}

/// `b` is a suffix of `a`, element by element
pub open spec fn items_suffix(a: Seq<Value>, b: Seq<Value>) -> bool {
    b.len() <= a.len() && items_eq(a.skip(a.len() - b.len()), b)
}

/// Whether the elements of `a` from `off` on equal those of `b`
fn items_match(a: &Vec<Value>, off: usize, b: &Vec<Value>) -> (r: bool)
    requires
        off + b@.len() <= a@.len(),
    ensures
        r == items_eq(a@.subrange(off as int, off + b@.len()), b@),
{
    let alen = a.len();
    let mut i: usize = 0;
    while i < b.len()
        invariant
            i <= b@.len(),
            alen == a@.len(),
            off + b@.len() <= a@.len(),
            items_eq(a@.subrange(off as int, off + i), b@.take(i as int)),
        decreases b@.len() - i,
    {
        let same = a[off + i].equals(&b[i]);
        proof {
            let s = a@.subrange(off as int, off + i + 1);
            let t = b@.take(i + 1);
            assert(s.drop_last() =~= a@.subrange(off as int, off + i));
            assert(t.drop_last() =~= b@.take(i as int));
            assert(s.last() == a@[off + i]);
            assert(t.last() == b@[i as int]);
        }
        if !same {
            proof {
                lemma_items_eq_prefix(a@.subrange(off as int, off + b@.len()), b@, i + 1);
                assert(a@.subrange(off as int, off + b@.len()).take(i + 1) =~= a@.subrange(off as int, off + i + 1));
            }
            return false;
        }
        i = i + 1;
    }
    assert(b@.take(b@.len() as int) =~= b@);
    true
}

/// Equal sequences have equal prefixes
proof fn lemma_items_eq_prefix(s: Seq<Value>, t: Seq<Value>, n: int)
    requires
        0 <= n <= s.len(),
        s.len() == t.len(),
    ensures
        items_eq(s, t) ==> items_eq(s.take(n), t.take(n)),
    decreases s.len() - n,
{
    if n < s.len() {
        lemma_items_eq_prefix(s, t, n + 1);
        assert(s.take(n + 1).drop_last() =~= s.take(n));
        assert(t.take(n + 1).drop_last() =~= t.take(n));
    } else {
        assert(s.take(n) =~= s);
        assert(t.take(n) =~= t);
    }
}

/// The entries of an object within another have their prefixes within it
proof fn lemma_entries_within_prefix(s: Seq<(Primitive, Value)>, t: Seq<(Primitive, Value)>, n: int)
    requires
        0 <= n <= s.len(),
    ensures
        entries_within(s, t) ==> entries_within(s.take(n), t),
    decreases s.len() - n,
{
    if n < s.len() {
        lemma_entries_within_prefix(s, t, n + 1);
        assert(s.take(n + 1).drop_last() =~= s.take(n));
    } else {
        assert(s.take(n) =~= s);
    }
}

/// The elements of an array made of a range
pub open spec fn range_values(start: i128, end: i128) -> Seq<Value> {
    Seq::new(
        if end > start { (end - start) as nat } else { 0 },
        |i: int| Value::Primitive(Primitive::Integer((start + i) as i128)),
    )
}

/// The entries of an object made of a sequence of values, keyed by position
pub open spec fn indexed_entries(s: Seq<Value>) -> Seq<(Primitive, Value)> {
    Seq::new(s.len(), |i: int| (Primitive::Integer(i as i128), s[i]))
}

/// An object whose keys are the positions of the values
fn indexed_object(a: Vec<Value>) -> (o: ObjectMap)
    requires
        a@.len() <= i128::MAX,
    ensures
        o.entries() == indexed_entries(a@),
{
    let ghost orig = a@;
    let n = a.len();
    let mut rest = reverse_vec(a);
    let mut o = ObjectMap::new();
    let mut i: usize = 0;
    while rest.len() > 0
        invariant
            rest@ == orig.skip(i as int).reverse(),
            i + rest@.len() == orig.len(),
            orig.len() <= i128::MAX,
            orig.len() == n,
            o.entries() == indexed_entries(orig.take(i as int)),
        decreases rest@.len(),
    {
        let v = rest.pop().unwrap();
        proof {
            assert(v == orig[i as int]);
            assert forall|j: int| 0 <= j < o.entries().len() implies !prim_eq(
                #[trigger] o.entries()[j].0,
                Primitive::Integer(i as i128),
            ) by {}
            lemma_find_key_none(o.entries(), Primitive::Integer(i as i128));
        }
        o.insert(Primitive::Integer(i as i128), v);
        i = i + 1;
        proof {
            assert(rest@ =~= orig.skip(i as int).reverse());
            assert(o.entries() =~= indexed_entries(orig.take(i as int)));
        }
    }
    assert(orig.take(i as int) =~= orig);
    o
}

impl Value {
    /// The type of the value
    pub fn type_of(&self) -> (t: ValueType)
        ensures
            t == type_of_value(*self),
    {
        match self {
            Value::Primitive(p) => p.type_of(),
            Value::Function(_) => ValueType::Function,
            Value::Array(_) => ValueType::Array,
            Value::Object(_) => ValueType::Object,
            Value::Range(_) => ValueType::Range,
        }
    }

    /// Whether the value is of the type: its own, a group it belongs to, or all
    pub fn is_type(&self, typename: ValueType) -> (b: bool)
        ensures
            b == type_includes(type_of_value(*self), typename),
    {
        let own = self.type_of();
        if own == typename {
            return true;
        }
        match (own, typename) {
            (ValueType::Boolean, ValueType::Primitive)
            | (ValueType::Integer, ValueType::Primitive)
            | (ValueType::Decimal, ValueType::Primitive)
            | (ValueType::String, ValueType::Primitive) => true,
            (ValueType::Array, ValueType::Collection)
            | (ValueType::Object, ValueType::Collection)
            | (ValueType::Range, ValueType::Collection) => true,
            (ValueType::Boolean, ValueType::Numeric)
            | (ValueType::Integer, ValueType::Numeric)
            | (ValueType::Decimal, ValueType::Numeric) => true,
            (_, ValueType::All) => true,
            _ => false,
        }
    }

    /// The length of the value: elements of a collection, the span of a
    /// range, bytes of a string, one otherwise
    pub fn len(&self) -> (n: i128)
        requires
            self matches Value::Range(r) ==> i128::MIN <= r.end - r.start <= i128::MAX,
        ensures
            n == value_len(*self),
    {
        match self {
            Value::Array(a) => a.len() as i128,
            Value::Object(o) => o.len() as i128,
            Value::Range(r) => r.end - r.start,
            Value::Primitive(Primitive::String(s)) => s.as_str().as_bytes().len() as i128,
            _ => 1,
        }
    }

    /// A boolean value
    pub fn boolean(value: bool) -> (v: Self)
        ensures
            v == Value::Primitive(Primitive::Boolean(value)),
    {
        Value::Primitive(Primitive::Boolean(value))
    }

    /// An integer value
    pub fn integer(value: i128) -> (v: Self)
        ensures
            v == Value::Primitive(Primitive::Integer(value)),
    {
        Value::Primitive(Primitive::Integer(value))
    }

    /// A decimal value
    pub fn decimal(value: Number) -> (v: Self)
        ensures
            v == Value::Primitive(Primitive::Decimal(value)),
    {
        Value::Primitive(Primitive::Decimal(value))
    }

    /// A string value
    pub fn string(value: String) -> (v: Self)
        ensures
            v == Value::Primitive(Primitive::String(value)),
    {
        Value::Primitive(Primitive::String(value))
    }

    /// The primitive of a primitive value; other values do not convert
    pub fn cast_primitive(self) -> (r: Result<Primitive, ValueError>)
        ensures
            match self {
                Value::Primitive(p) => r == Ok::<Primitive, ValueError>(p),
                _ => r == Err::<Primitive, ValueError>(
                    ValueError::TypeConversion(type_of_value(self), ValueType::Primitive),
                ),
            },
    {
        let t = self.type_of();
        match self {
            Value::Primitive(p) => Ok(p),
            _ => Err(ValueError::TypeConversion(t, ValueType::Primitive)),
        }
    }

    /// The number of a value that is a boolean, integer or decimal
    pub fn cast_decimal(self) -> (r: Result<Number, ValueError>)
        ensures
            match self {
                Value::Primitive(p) => if p is String {
                    r == Err::<Number, ValueError>(
                        ValueError::TypeConversion(ValueType::String, ValueType::Decimal),
                    )
                } else {
                    r == Ok::<Number, ValueError>(as_number(p))
                },
                _ => r == Err::<Number, ValueError>(
                    ValueError::TypeConversion(type_of_value(self), ValueType::Decimal),
                ),
            },
    {
        let t = self.type_of();
        match self {
            Value::Primitive(p) => match p.as_decimal() {
                Some(Primitive::Decimal(n)) => Ok(n),
                _ => Err(ValueError::TypeConversion(t, ValueType::Decimal)),
            },
            _ => Err(ValueError::TypeConversion(t, ValueType::Decimal)),
        }
    }

    /// The value as a boolean: its truth; none for a function
    pub fn as_boolean(self) -> (r: Option<Self>)
        ensures
            match value_truth(self) {
                Some(b) => r == Some(Value::Primitive(Primitive::Boolean(b))),
                None => r is None,
            },
    {
        match self {
            Value::Primitive(p) => Some(Value::Primitive(p.as_boolean())),
            Value::Array(a) => Some(Value::Primitive(Primitive::Boolean(a.len() != 0))),
            Value::Object(o) => Some(Value::Primitive(Primitive::Boolean(!o.is_empty()))),
            Value::Range(r) => Some(Value::Primitive(Primitive::Boolean(r.start >= r.end))),
            Value::Function(_) => None,
        }
    }

    /// The truth of the value; a function has none
    pub fn cast_boolean(self) -> (r: Result<bool, ValueError>)
        ensures
            match value_truth(self) {
                Some(b) => r == Ok::<bool, ValueError>(b),
                None => r == Err::<bool, ValueError>(
                    ValueError::TypeConversion(ValueType::Function, ValueType::Boolean),
                ),
            },
    {
        let t = self.type_of();
        match self.as_boolean() {
            Some(Value::Primitive(Primitive::Boolean(b))) => Ok(b),
            _ => Err(ValueError::TypeConversion(t, ValueType::Boolean)),
        }
    }

    /// The value as an integer: that of a primitive which has one
    pub fn as_integer(self) -> (r: Option<Self>)
        ensures
            match self {
                Value::Primitive(p) => match prim_int(p) {
                    Some(i) => r == Some(Value::Primitive(Primitive::Integer(i as i128))),
                    None => r is None,
                },
                _ => r is None,
            },
    {
        match self {
            Value::Primitive(p) => match p.as_integer() {
                Some(q) => Some(Value::Primitive(q)),
                None => None,
            },
            _ => None,
        }
    }

    /// The integer of the value, where it has one
    pub fn cast_integer(self) -> (r: Result<i128, ValueError>)
        ensures
            match self {
                Value::Primitive(p) => match prim_int(p) {
                    Some(i) => r == Ok::<i128, ValueError>(i as i128),
                    None => r == Err::<i128, ValueError>(
                        ValueError::TypeConversion(prim_type(p), ValueType::Integer),
                    ),
                },
                _ => r == Err::<i128, ValueError>(
                    ValueError::TypeConversion(type_of_value(self), ValueType::Integer),
                ),
            },
    {
        let t = self.type_of();
        match self.as_integer() {
            Some(Value::Primitive(Primitive::Integer(i))) => Ok(i),
            _ => Err(ValueError::TypeConversion(t, ValueType::Integer)),
        }
    }

    /// The value as a decimal: the number of a primitive that is not a string
    pub fn as_decimal(self) -> (r: Option<Self>)
        ensures
            match self {
                Value::Primitive(p) => if p is String {
                    r is None
                } else {
                    r == Some(Value::Primitive(Primitive::Decimal(as_number(p))))
                },
                _ => r is None,
            },
    {
        match self {
            Value::Primitive(p) => match p.as_decimal() {
                Some(q) => Some(Value::Primitive(q)),
                None => None,
            },
            _ => None,
        }
    }

    /// The value as an array: a primitive alone, an array itself, the values
    /// of an object in order, the integers of a range; none for a function
    pub fn as_array(self) -> (r: Option<Self>)
        ensures
            match self {
                Value::Primitive(p) => r matches Some(Value::Array(a)) && a@ == seq![Value::Primitive(p)],
                Value::Array(a) => r == Some(Value::Array(a)),
                Value::Object(o) => r matches Some(Value::Array(a)) && a@ == o.entries().map_values(
                    |e: (Primitive, Value)| e.1,
                ),
                Value::Range(rg) => r matches Some(Value::Array(a)) && a@ == range_values(rg.start, rg.end),
                Value::Function(_) => r is None,
            },
    {
        match self {
            Value::Primitive(p) => {
                let mut a: Vec<Value> = Vec::new();
                a.push(Value::Primitive(p));
                Some(Value::Array(a))
            },
            Value::Array(a) => Some(Value::Array(a)),
            Value::Object(o) => {
                let entries = o.into_entries();
                let ghost orig = entries@;
                let mut rest = entries;
                let mut back: Vec<Value> = Vec::new();
                while rest.len() > 0
                    invariant
                        rest@ == orig.take(rest@.len() as int),
                        rest@.len() <= orig.len(),
                        back@ == orig.skip(rest@.len() as int).map_values(|e: (Primitive, Value)| e.1).reverse(),
                    decreases rest@.len(),
                {
                    let (_, v) = rest.pop().unwrap();
                    back.push(v);
                    assert(rest@ =~= orig.take(rest@.len() as int));
                    assert(back@ =~= orig.skip(rest@.len() as int).map_values(|e: (Primitive, Value)| e.1).reverse());
                }
                let values = reverse_vec(back);
                assert(orig.skip(0) =~= orig);
                assert(values@ =~= orig.map_values(|e: (Primitive, Value)| e.1));
                Some(Value::Array(values))
            },
            Value::Range(rg) => {
                let mut a: Vec<Value> = Vec::new();
                let mut i = rg.start;
                while i < rg.end
                    invariant
                        rg.start <= i <= rg.end || (i == rg.start && rg.end <= rg.start),
                        a@ == range_values(rg.start, i),
                    decreases rg.end - i,
                {
                    a.push(Value::Primitive(Primitive::Integer(i)));
                    assert(a@ =~= range_values(rg.start, (i + 1) as i128));
                    i = i + 1;
                }
                assert(a@ =~= range_values(rg.start, rg.end));
                Some(Value::Array(a))
            },
            Value::Function(_) => None,
        }
    }

    /// The array of the value, where it has one
    pub fn cast_array(self) -> (r: Result<Vec<Value>, ValueError>)
        ensures
            match self {
                Value::Primitive(p) => r matches Ok(a) && a@ == seq![Value::Primitive(p)],
                Value::Array(a) => r == Ok::<Vec<Value>, ValueError>(a),
                Value::Object(o) => r matches Ok(a) && a@ == o.entries().map_values(
                    |e: (Primitive, Value)| e.1,
                ),
                Value::Range(rg) => r matches Ok(a) && a@ == range_values(rg.start, rg.end),
                Value::Function(_) => r == Err::<Vec<Value>, ValueError>(
                    ValueError::TypeConversion(ValueType::Function, ValueType::Array),
                ),
            },
    {
        let t = self.type_of();
        match self.as_array() {
            Some(Value::Array(a)) => Ok(a),
            _ => Err(ValueError::TypeConversion(t, ValueType::Array)),
        }
    }

    /// The value as an object: a primitive under the key `0`, the elements
    /// of an array or range under their positions, an object itself, the
    /// documentation of a function
    pub fn as_object(self) -> (r: Option<Self>)
        ensures
            match self {
                Value::Primitive(p) => r matches Some(Value::Object(o)) && o.entries() == seq![
                    (Primitive::Integer(0), Value::Primitive(p)),
                ],
                Value::Array(a) => r matches Some(Value::Object(o)) && o.entries() == indexed_entries(a@),
                Value::Object(o) => r == Some(Value::Object(o)),
                Value::Range(rg) => r matches Some(Value::Object(o)) && o.entries() == indexed_entries(
                    range_values(rg.start, rg.end),
                ),
                Value::Function(f) => r matches Some(Value::Object(o)) && docs_object(f.docs@, o.entries()),
            },
    {
        match self {
            Value::Primitive(p) => {
                let mut o = ObjectMap::new();
                o.insert(Primitive::Integer(0), Value::Primitive(p));
                Some(Value::Object(o))
            },
            Value::Array(a) => {
                let n = a.len();
                Some(Value::Object(indexed_object(a)))
            },
            Value::Object(o) => Some(Value::Object(o)),
            Value::Range(rg) => {
                match Value::Range(rg).as_array() {
                    Some(Value::Array(a)) => {
                        let n = a.len();
                        Some(Value::Object(indexed_object(a)))
                    },
                    _ => None,
                }
            },
            Value::Function(f) => Some(Value::Object(f.docs.into_hashmap())),
        }
    }

    /// The object of the value, where it has one
    pub fn cast_object(self) -> (r: Result<ObjectMap, ValueError>)
        ensures
            match self {
                Value::Primitive(p) => r matches Ok(o) && o.entries() == seq![
                    (Primitive::Integer(0), Value::Primitive(p)),
                ],
                Value::Array(a) => r matches Ok(o) && o.entries() == indexed_entries(a@),
                Value::Object(o) => r == Ok::<ObjectMap, ValueError>(o),
                Value::Range(rg) => r matches Ok(o) && o.entries() == indexed_entries(
                    range_values(rg.start, rg.end),
                ),
                Value::Function(f) => r matches Ok(o) && docs_object(f.docs@, o.entries()),
            },
    {
        match self.as_object() {
            Some(Value::Object(o)) => Ok(o),
            _ => Err(ValueError::TypeConversion(ValueType::Object, ValueType::Object)),
        }
    }

    /// Brings two values to a common type: values of one type stay as they
    /// are; primitives are resolved to their common primitive type; a
    /// primitive or range meeting an array becomes an array, and one meeting
    /// an object an object, as does an array meeting an object; the other
    /// pairs do not resolve
    pub fn resolve(self, other: Self) -> (r: Result<(Self, Self), ValueError>)
        ensures
            type_of_value(self) == type_of_value(other) ==> r == Ok::<(Value, Value), ValueError>(
                (self, other),
            ),
            type_of_value(self) != type_of_value(other) ==> resolves(self, other, r),
    {
        let ta = self.type_of();
        let tb = other.type_of();
        if ta == tb {
            return Ok((self, other));
        }
        let ca = match ta {
            ValueType::Boolean | ValueType::Integer | ValueType::Decimal | ValueType::String => ValueType::Primitive,
            t => t,
        };
        let cb = match tb {
            ValueType::Boolean | ValueType::Integer | ValueType::Decimal | ValueType::String => ValueType::Primitive,
            t => t,
        };
        match (ca, cb) {
            (ValueType::Primitive, ValueType::Primitive) => match (self, other) {
                (Value::Primitive(p), Value::Primitive(q)) => {
                    let (a, b) = p.resolve(q).unwrap();
                    Ok((Value::Primitive(a), Value::Primitive(b)))
                },
                _ => Err(ValueError::TypeConversion(ca, cb)),
            },
            (ValueType::Primitive, ValueType::Array) | (ValueType::Range, ValueType::Array) => match self.as_array() {
                Some(a) => Ok((a, other)),
                None => Err(ValueError::TypeConversion(ca, cb)),
            },
            (ValueType::Primitive, ValueType::Object)
            | (ValueType::Array, ValueType::Object)
            | (ValueType::Range, ValueType::Object) => match self.as_object() {
                Some(o) => Ok((o, other)),
                None => Err(ValueError::TypeConversion(ca, cb)),
            },
            (ValueType::Array, ValueType::Primitive) | (ValueType::Array, ValueType::Range) => match other.as_array() {
                Some(a) => Ok((self, a)),
                None => Err(ValueError::TypeConversion(ca, cb)),
            },
            (ValueType::Object, ValueType::Primitive)
            | (ValueType::Object, ValueType::Array)
            | (ValueType::Object, ValueType::Range) => match other.as_object() {
                Some(o) => Ok((self, o)),
                None => Err(ValueError::TypeConversion(ca, cb)),
            },
            _ => Err(ValueError::TypeConversion(ca, cb)),
        }
    }

    /// The value at an index, to change in place: the element of an array at
    /// an integer position (counted from the end when negative), the value of
    /// an object's key. Ranges and strings cannot be changed in place
    pub fn mut_index(&mut self, index: &Value) -> (r: Result<&mut Value, ValueError>)
        ensures
            match *old(self) {
                Value::Array(a) => match *index {
                    Value::Range(_) => r == Err::<&mut Value, ValueError>(ValueError::ReadOnlyIndexing)
                        && *final(self) == *old(self),
                    Value::Primitive(Primitive::Integer(i)) => {
                        let j = adjusted(a@.len() as int, i);
                        if 0 <= j < a@.len() {
                            r matches Ok(e) && *e == a@[j as int] && (*final(self) matches Value::Array(b)
                                && b@ == a@.update(j as int, *final(e)))
                        } else {
                            r == Err::<&mut Value, ValueError>(ValueError::IndexOutOfBounds) && *final(self) == *old(self)
                        }
                    },
                    _ => r == Err::<&mut Value, ValueError>(ValueError::CannotIndexUsing(type_of_value(*index)))
                        && *final(self) == *old(self),
                },
                Value::Object(o) => match *index {
                    Value::Primitive(k) => match find_key(o.entries(), k) {
                        Some(i) => r matches Ok(e) && *e == o.entries()[i].1 && (*final(self) matches Value::Object(p)
                            && p.entries() == o.entries().update(i, (o.entries()[i].0, *final(e)))),
                        None => r == Err::<&mut Value, ValueError>(ValueError::KeyNotFound) && *final(self) == *old(self),
                    },
                    _ => r == Err::<&mut Value, ValueError>(ValueError::CannotIndexUsing(type_of_value(*index)))
                        && *final(self) == *old(self),
                },
                Value::Range(_) => r == Err::<&mut Value, ValueError>(ValueError::ReadOnlyIndexing)
                    && *final(self) == *old(self),
                Value::Primitive(Primitive::String(_)) => r == Err::<&mut Value, ValueError>(ValueError::ReadOnlyIndexing)
                    && *final(self) == *old(self),
                _ => r == Err::<&mut Value, ValueError>(ValueError::CannotIndexInto(type_of_value(*old(self))))
                    && *final(self) == *old(self),
            },
    {
        let own_type = self.type_of();
        let idx_type = index.type_of();
        match self {
            Value::Array(a) => match index {
                Value::Range(_) => Err(ValueError::ReadOnlyIndexing),
                Value::Primitive(Primitive::Integer(i)) => {
                    let len = a.len();
                    let j: i128 = if *i < 0 {
                        len as i128 + *i
                    } else {
                        *i
                    };
                    if 0 <= j && j < len as i128 {
                        Ok(&mut a[j as usize])
                    } else {
                        Err(ValueError::IndexOutOfBounds)
                    }
                },
                _ => Err(ValueError::CannotIndexUsing(idx_type)),
            },
            Value::Object(o) => match index {
                Value::Primitive(k) => match o.get_mut(k) {
                    Some(e) => Ok(e),
                    None => Err(ValueError::KeyNotFound),
                },
                _ => Err(ValueError::CannotIndexUsing(idx_type)),
            },
            Value::Range(_) => Err(ValueError::ReadOnlyIndexing),
            Value::Primitive(Primitive::String(_)) => Err(ValueError::ReadOnlyIndexing),
            _ => Err(ValueError::CannotIndexInto(own_type)),
        }
    }

    /// The value at an index, by reference: the element of an array at an
    /// integer position (counted from the end when negative), the value of
    /// an object's key; ranges and strings are read by `into_index` only
    pub fn get_index(&self, index: Value) -> (r: Result<&Value, ValueError>)
        ensures
            match *self {
                Value::Array(a) => match index {
                    Value::Range(_) => r == Err::<&Value, ValueError>(ValueError::ReadOnlyIndexing),
                    Value::Primitive(Primitive::Integer(i)) => if slot(a@.len() as int, i) < a@.len() {
                        r == Ok::<&Value, ValueError>(&a@[slot(a@.len() as int, i) as int])
                    } else {
                        r == Err::<&Value, ValueError>(ValueError::IndexOutOfBounds)
                    },
                    _ => r == Err::<&Value, ValueError>(ValueError::CannotIndexUsing(type_of_value(index))),
                },
                Value::Object(o) => match index {
                    Value::Primitive(k) => match find_key(o.entries(), k) {
                        Some(j) => r == Ok::<&Value, ValueError>(&o.entries()[j].1),
                        None => r == Err::<&Value, ValueError>(ValueError::KeyNotFound),
                    },
                    _ => r == Err::<&Value, ValueError>(ValueError::CannotIndexUsing(type_of_value(index))),
                },
                Value::Range(_) | Value::Primitive(Primitive::String(_)) => r == Err::<&Value, ValueError>(
                    ValueError::ReadOnlyIndexing,
                ),
                _ => r == Err::<&Value, ValueError>(ValueError::CannotIndexInto(type_of_value(*self))),
            },
    {
        let own_type = self.type_of();
        let idx_type = index.type_of();
        match self {
            Value::Array(a) => match index {
                Value::Range(_) => Err(ValueError::ReadOnlyIndexing),
                Value::Primitive(Primitive::Integer(i)) => {
                    let j: i128 = if i < 0 { a.len() as i128 + i } else { i };
                    let p = j as usize;
                    if p < a.len() {
                        Ok(&a[p])
                    } else {
                        Err(ValueError::IndexOutOfBounds)
                    }
                },
                _ => Err(ValueError::CannotIndexUsing(idx_type)),
            },
            Value::Object(o) => match index {
                Value::Primitive(k) => match o.get(&k) {
                    Some(v) => Ok(v),
                    None => Err(ValueError::KeyNotFound),
                },
                _ => Err(ValueError::CannotIndexUsing(idx_type)),
            },
            Value::Range(_) => Err(ValueError::ReadOnlyIndexing),
            Value::Primitive(Primitive::String(_)) => Err(ValueError::ReadOnlyIndexing),
            _ => Err(ValueError::CannotIndexInto(own_type)),
        }
    }

    /// Consumes the value and reads an index of it: an element or a slice of
    /// an array, the value of an object's key, an integer or a sub-range of a
    /// range, a character or a byte slice of a string
    pub fn into_index(self, index: Value) -> (r: Result<Value, ValueError>)
        requires
            slice_on_boundaries(self, index),
        ensures
            match self {
                Value::Array(a) => match index {
                    Value::Range(rg) => if (rg.start as usize) <= (rg.end as usize) && (rg.end as usize) <= a@.len() {
                        r matches Ok(Value::Array(b)) && b@ == a@.subrange(
                            (rg.start as usize) as int,
                            (rg.end as usize) as int,
                        )
                    } else {
                        r == Err::<Value, ValueError>(ValueError::IndexOutOfBounds)
                    },
                    Value::Primitive(Primitive::Integer(i)) => if slot(a@.len() as int, i) < a@.len() {
                        r == Ok::<Value, ValueError>(a@[slot(a@.len() as int, i) as int])
                    } else {
                        r == Err::<Value, ValueError>(ValueError::IndexOutOfBounds)
                    },
                    _ => r == Err::<Value, ValueError>(ValueError::CannotIndexUsing(type_of_value(index))),
                },
                Value::Object(o) => match index {
                    Value::Primitive(k) => match find_key(o.entries(), k) {
                        Some(j) => r == Ok::<Value, ValueError>(o.entries()[j].1),
                        None => r == Err::<Value, ValueError>(ValueError::KeyNotFound),
                    },
                    _ => r == Err::<Value, ValueError>(ValueError::CannotIndexUsing(type_of_value(index))),
                },
                Value::Range(own) => match index {
                    Value::Range(rg) => if rg.start >= own.start && rg.end <= own.end {
                        r == Ok::<Value, ValueError>(Value::Range(rg))
                    } else {
                        r == Err::<Value, ValueError>(ValueError::IndexOutOfBounds)
                    },
                    Value::Primitive(Primitive::Integer(i)) => if own.start <= i < own.end {
                        r == Ok::<Value, ValueError>(Value::Primitive(Primitive::Integer(i)))
                    } else {
                        r == Err::<Value, ValueError>(ValueError::IndexOutOfBounds)
                    },
                    _ => r == Err::<Value, ValueError>(ValueError::CannotIndexUsing(type_of_value(index))),
                },
                Value::Primitive(Primitive::String(s)) => match index {
                    Value::Range(rg) => if byte_range_fits(s@, rg) {
                        r matches Ok(v) && is_byte_slice(v, s@, rg)
                    } else {
                        r == Err::<Value, ValueError>(ValueError::IndexOutOfBounds)
                    },
                    Value::Primitive(Primitive::Integer(i)) => if slot(utf8_of(s@).len() as int, i) < s@.len() {
                        r matches Ok(v) && is_char_string(v, s@[slot(utf8_of(s@).len() as int, i) as int])
                    } else {
                        r == Err::<Value, ValueError>(ValueError::IndexOutOfBounds)
                    },
                    _ => r == Err::<Value, ValueError>(ValueError::CannotIndexUsing(type_of_value(index))),
                },
                _ => r == Err::<Value, ValueError>(ValueError::CannotIndexInto(type_of_value(self))),
            },
    {
        let own_type = self.type_of();
        let idx_type = index.type_of();
        match self {
            Value::Array(a) => match index {
                Value::Range(rg) => {
                    let start = rg.start as usize;
                    let end = rg.end as usize;
                    if start > end || end > a.len() {
                        return Err(ValueError::IndexOutOfBounds);
                    }
                    let mut a = a;
                    a.truncate(end);
                    let tail = a.split_off(start);
                    Ok(Value::Array(tail))
                },
                Value::Primitive(Primitive::Integer(i)) => {
                    let j: i128 = if i < 0 { a.len() as i128 + i } else { i };
                    let p = j as usize;
                    if p < a.len() {
                        let mut a = a;
                        Ok(a.swap_remove(p))
                    } else {
                        Err(ValueError::IndexOutOfBounds)
                    }
                },
                _ => Err(ValueError::CannotIndexUsing(idx_type)),
            },
            Value::Object(o) => match index {
                Value::Primitive(k) => {
                    let mut o = o;
                    match o.remove(&k) {
                        Some(v) => Ok(v),
                        None => Err(ValueError::KeyNotFound),
                    }
                },
                _ => Err(ValueError::CannotIndexUsing(idx_type)),
            },
            Value::Range(own) => match index {
                Value::Range(rg) => {
                    if rg.start >= own.start && rg.end <= own.end {
                        Ok(Value::Range(rg))
                    } else {
                        Err(ValueError::IndexOutOfBounds)
                    }
                },
                Value::Primitive(Primitive::Integer(i)) => {
                    if i >= own.start && i < own.end {
                        Ok(Value::integer(i))
                    } else {
                        Err(ValueError::IndexOutOfBounds)
                    }
                },
                _ => Err(ValueError::CannotIndexUsing(idx_type)),
            },
            Value::Primitive(Primitive::String(s)) => match index {
                Value::Range(rg) => {
                    let start = rg.start as usize;
                    let end = rg.end as usize;
                    let n = s.as_str().as_bytes().len();
                    if start > end || end > n {
                        return Err(ValueError::IndexOutOfBounds);
                    }
                    Ok(Value::string(byte_substring(s.as_str(), start, end)))
                },
                Value::Primitive(Primitive::Integer(i)) => {
                    let n = s.as_str().as_bytes().len();
                    let j: i128 = if i < 0 { n as i128 + i } else { i };
                    let p = j as usize;
                    if p < s.as_str().unicode_len() {
                        let c = s.as_str().get_char(p);
                        let cs = vec![c];
                        assert(cs@ =~= seq![c]);
                        Ok(Value::string(string_from_chars(cs.as_slice())))
                    } else {
                        Err(ValueError::IndexOutOfBounds)
                    }
                },
                _ => Err(ValueError::CannotIndexUsing(idx_type)),
            },
            _ => Err(ValueError::CannotIndexInto(own_type)),
        }
    }

    /// Deletes an index of the value, returning what was there: an element
    /// of an array, a key of an object, a character of a string, or a byte
    /// range of a string
    pub fn delete_index(&mut self, index: Value) -> (r: Result<Value, ValueError>)
        requires
            slice_on_boundaries(*old(self), index),
            char_delete_on_boundaries(*old(self), index),
        ensures
            match *old(self) {
                Value::Array(a) => match index {
                    Value::Range(_) => r == Err::<Value, ValueError>(ValueError::ReadOnlyIndexing)
                        && *final(self) == *old(self),
                    Value::Primitive(Primitive::Integer(i)) => if adjusted(a@.len() as int, i) >= 0
                        && slot(a@.len() as int, i) < a@.len() {
                        r == Ok::<Value, ValueError>(a@[slot(a@.len() as int, i) as int])
                            && (*final(self) matches Value::Array(b) && b@ == a@.remove(slot(a@.len() as int, i) as int))
                    } else {
                        r == Err::<Value, ValueError>(ValueError::IndexOutOfBounds) && *final(self) == *old(self)
                    },
                    _ => r == Err::<Value, ValueError>(ValueError::CannotIndexUsing(type_of_value(index)))
                        && *final(self) == *old(self),
                },
                Value::Object(o) => match index {
                    Value::Primitive(k) => match find_key(o.entries(), k) {
                        Some(j) => r == Ok::<Value, ValueError>(o.entries()[j].1)
                            && (*final(self) matches Value::Object(p) && p.entries() == o.entries().remove(j)),
                        None => r == Err::<Value, ValueError>(ValueError::KeyNotFound)
                            && (*final(self) matches Value::Object(p) && p.entries() == o.entries()),
                    },
                    _ => r == Err::<Value, ValueError>(ValueError::CannotIndexUsing(type_of_value(index)))
                        && *final(self) == *old(self),
                },
                Value::Range(_) => r == Err::<Value, ValueError>(ValueError::ReadOnlyIndexing)
                    && *final(self) == *old(self),
                Value::Primitive(Primitive::String(s)) => match index {
                    Value::Range(rg) => if byte_range_fits(s@, rg) {
                        (r matches Ok(v) && is_byte_slice(v, s@, rg)) && (*final(self) matches Value::Primitive(
                            Primitive::String(t),
                        ) && utf8_of(t@) == utf8_of(s@).subrange(0, (rg.start as usize) as int) + utf8_of(
                            s@,
                        ).subrange((rg.end as usize) as int, utf8_of(s@).len() as int))
                    } else {
                        r == Err::<Value, ValueError>(ValueError::IndexOutOfBounds) && *final(self) == *old(self)
                    },
                    Value::Primitive(Primitive::Integer(i)) => {
                        let p = slot(utf8_of(s@).len() as int, i);
                        if p < s@.len() {
                            (r matches Ok(v) && is_char_string(v, s@[p as int]))
                                && (*final(self) matches Value::Primitive(Primitive::String(t))
                                && utf8_of(t@) == utf8_of(s@).subrange(0, p as int) + utf8_of(s@).subrange(
                                    p + 1,
                                    utf8_of(s@).len() as int,
                                ))
                        } else {
                            r == Err::<Value, ValueError>(ValueError::IndexOutOfBounds) && *final(self) == *old(self)
                        }
                    },
                    _ => r == Err::<Value, ValueError>(ValueError::CannotIndexUsing(type_of_value(index)))
                        && *final(self) == *old(self),
                },
                _ => r == Err::<Value, ValueError>(ValueError::CannotIndexInto(type_of_value(*old(self))))
                    && *final(self) == *old(self),
            },
    {
        let own_type = self.type_of();
        let idx_type = index.type_of();
        match self {
            Value::Array(a) => match index {
                Value::Range(_) => Err(ValueError::ReadOnlyIndexing),
                Value::Primitive(Primitive::Integer(i)) => {
                    let j: i128 = if i < 0 { a.len() as i128 + i } else { i };
                    let p = j as usize;
                    if p >= a.len() || j < 0 {
                        return Err(ValueError::IndexOutOfBounds);
                    }
                    Ok(a.remove(p))
                },
                _ => Err(ValueError::CannotIndexUsing(idx_type)),
            },
            Value::Object(o) => match index {
                Value::Primitive(k) => match o.remove(&k) {
                    Some(v) => Ok(v),
                    None => Err(ValueError::KeyNotFound),
                },
                _ => Err(ValueError::CannotIndexUsing(idx_type)),
            },
            Value::Range(_) => Err(ValueError::ReadOnlyIndexing),
            Value::Primitive(Primitive::String(s)) => match index {
                Value::Range(rg) => {
                    let start = rg.start as usize;
                    let end = rg.end as usize;
                    let n = s.as_str().as_bytes().len();
                    if start > end || end > n {
                        return Err(ValueError::IndexOutOfBounds);
                    }
                    let cut = byte_substring(s.as_str(), start, end);
                    let rest = byte_cut(s.as_str(), start, end);
                    *s = rest;
                    Ok(Value::string(cut))
                },
                Value::Primitive(Primitive::Integer(i)) => {
                    let n = s.as_str().as_bytes().len();
                    let j: i128 = if i < 0 { n as i128 + i } else { i };
                    let p = j as usize;
                    if p < s.as_str().unicode_len() {
                        let c = s.as_str().get_char(p);
                        proof {
                            vstd::utf8::encode_utf8_valid_utf8(s@);
                            lemma_chars_within_bytes(s@);
                        }
                        let t = byte_splice(s.as_str(), p, "");
                        proof {
                            reveal_strlit("");
                            assert(utf8_of(""@) =~= Seq::<u8>::empty());
                            assert(utf8_of(s@).subrange(0, p as int) + Seq::<u8>::empty() =~= utf8_of(s@).subrange(0, p as int));
                        }
                        *s = t;
                        let cs = vec![c];
                        assert(cs@ =~= seq![c]);
                        Ok(Value::string(string_from_chars(cs.as_slice())))
                    } else {
                        Err(ValueError::IndexOutOfBounds)
                    }
                },
                _ => Err(ValueError::CannotIndexUsing(idx_type)),
            },
            _ => Err(ValueError::CannotIndexInto(own_type)),
        }
    }

    /// The text of the value: a primitive's text, a function's signature,
    /// the debug text of an array or range, an object's entries as
    /// `key: value` joined by commas between braces
    pub fn to_string(&self) -> (s: String)
        ensures
            match string_text(*self) {
                Some(t) => s@ == t,
                None => s@ == self->Function_0.docs.signature@,
            },
    {
        match self {
            Value::Primitive(p) => p.clone_text(),
            Value::Function(f) => f.docs.signature.clone(),
            Value::Object(o) => {
                let mut out: Vec<char> = Vec::new();
                out.push('{');
                let mut i: usize = 0;
                while i < o.entries.len()
                    invariant
                        i <= o.entries@.len(),
                        out@ == seq!['{'] + entries_joined(o.entries@.take(i as int)),
                    decreases o.entries@.len() - i,
                {
                    if i > 0 {
                        out.push(',');
                        out.push(' ');
                    }
                    push_prim_debug(&o.entries[i].0, &mut out);
                    out.push(':');
                    out.push(' ');
                    push_value_debug(&o.entries[i].1, &mut out);
                    proof {
                        let t = o.entries@.take(i + 1);
                        assert(t.drop_last() =~= o.entries@.take(i as int));
                        if i == 0 {
                            assert(o.entries@.take(0) =~= Seq::<(Primitive, Value)>::empty());
                        }
                    }
                    i = i + 1;
                    assert(out@ =~= seq!['{'] + entries_joined(o.entries@.take(i as int)));
                }
                out.push('}');
                assert(o.entries@.take(o.entries@.len() as int) =~= o.entries@);
                string_from_chars(out.as_slice())
            },
            _ => {
                let mut out: Vec<char> = Vec::new();
                push_value_debug(self, &mut out);
                assert(out@ =~= value_debug(*self));
                string_from_chars(out.as_slice())
            },
        }
    }

    /// The value as a string: the text of a primitive, the debug text of an
    /// array or range, the entries of an object; none for a function
    pub fn as_string(self) -> (r: Option<Self>)
        ensures
            match string_text(self) {
                Some(t) => r matches Some(Value::Primitive(Primitive::String(s))) && s@ == t,
                None => r is None,
            },
    {
        match self {
            Value::Primitive(p) => Some(Value::Primitive(p.as_string())),
            Value::Function(_) => None,
            _ => Some(Value::string(self.to_string())),
        }
    }

    /// The text of the value as a string; a function has none
    pub fn cast_string(self) -> (r: Result<String, ValueError>)
        ensures
            match string_text(self) {
                Some(t) => r matches Ok(s) && s@ == t,
                None => r == Err::<String, ValueError>(
                    ValueError::TypeConversion(ValueType::Function, ValueType::String),
                ),
            },
    {
        let t = self.type_of();
        match self.as_string() {
            Some(Value::Primitive(Primitive::String(s))) => Ok(s),
            _ => Err(ValueError::TypeConversion(t, ValueType::String)),
        }
    }

    /// Casts the value to a type: unchanged when it is of the type already,
    /// else converted as the type's `as_` conversion does
    pub fn cast(self, typename: ValueType) -> (r: Result<Self, ValueError>)
        ensures
            type_includes(type_of_value(self), typename) ==> r == Ok::<Value, ValueError>(self),
            !type_includes(type_of_value(self), typename) ==> casts_to(self, typename, r),
    {
        let own_type = self.type_of();
        if self.is_type(typename) {
            return Ok(self);
        }
        match typename {
            ValueType::Boolean => match self.as_boolean() {
                Some(v) => Ok(v),
                None => Err(ValueError::TypeConversion(own_type, typename)),
            },
            ValueType::Integer => match self.as_integer() {
                Some(v) => Ok(v),
                None => Err(ValueError::TypeConversion(own_type, typename)),
            },
            ValueType::Decimal => match self.as_decimal() {
                Some(v) => Ok(v),
                None => Err(ValueError::TypeConversion(own_type, typename)),
            },
            ValueType::String => match self.as_string() {
                Some(v) => Ok(v),
                None => Err(ValueError::TypeConversion(own_type, typename)),
            },
            ValueType::Array => match self.as_array() {
                Some(v) => Ok(v),
                None => Err(ValueError::TypeConversion(own_type, typename)),
            },
            ValueType::Object => match self.as_object() {
                Some(v) => Ok(v),
                None => Err(ValueError::TypeConversion(own_type, typename)),
            },
            ValueType::Primitive => match self.cast_primitive() {
                Ok(p) => Ok(Value::Primitive(p)),
                Err(e) => Err(e),
            },
            ValueType::Numeric => match self.cast_decimal() {
                Ok(n) => Ok(Value::Primitive(Primitive::Decimal(n))),
                Err(e) => Err(e),
            },
            ValueType::Collection => match self.cast_array() {
                Ok(a) => Ok(Value::Array(a)),
                Err(e) => Err(e),
            },
            ValueType::All => Ok(self),
            _ => Err(ValueError::TypeConversion(own_type, typename)),
        }
    }

    /// Sets an index of the value: an element of an array (one past the end
    /// appends), a key of an object, a character of a string (one past the
    /// end appends) to the text of the value
    pub fn set_index(&mut self, index: Value, value: Value) -> (r: Result<(), ValueError>)
        requires
            set_index_in_bounds(*old(self), index, value),
        ensures
            match *old(self) {
                Value::Array(a) => match int_index(index) {
                    None => r == Err::<(), ValueError>(
                        ValueError::TypeConversion(type_of_value(index), ValueType::Integer),
                    ) && *final(self) == *old(self),
                    Some(i) => {
                        let j = adjusted(a@.len() as int, i);
                        if j == a@.len() {
                            r is Ok && (*final(self) matches Value::Array(b) && b@ == a@.push(value))
                        } else if j > a@.len() {
                            r == Err::<(), ValueError>(ValueError::IndexOutOfBounds) && *final(self) == *old(self)
                        } else {
                            r is Ok && (*final(self) matches Value::Array(b) && b@ == a@.update(j as int, value))
                        }
                    },
                },
                Value::Object(o) => match index {
                    Value::Primitive(k) => r is Ok && (*final(self) matches Value::Object(p)
                        && p.entries() == crate::value::object::insert_entry(o.entries(), k, value)),
                    _ => r == Err::<(), ValueError>(
                        ValueError::TypeConversion(type_of_value(index), ValueType::Primitive),
                    ) && *final(self) == *old(self),
                },
                Value::Primitive(Primitive::String(s)) => match int_index(index) {
                    None => r == Err::<(), ValueError>(
                        ValueError::TypeConversion(type_of_value(index), ValueType::Integer),
                    ) && *final(self) == *old(self),
                    Some(i) => {
                        let n = utf8_of(s@).len() as int;
                        let j = adjusted(n, i);
                        if j > n {
                            r == Err::<(), ValueError>(ValueError::IndexOutOfBounds) && *final(self) == *old(self)
                        } else {
                            match string_text(value) {
                                None => r == Err::<(), ValueError>(
                                    ValueError::TypeConversion(ValueType::Function, ValueType::String),
                                ) && *final(self) == *old(self),
                                Some(text) => r is Ok && if j == n {
                                    *final(self) matches Value::Primitive(Primitive::String(t)) && t@ == s@ + text
                                } else {
                                    *final(self) matches Value::Primitive(Primitive::String(t)) && utf8_of(t@)
                                        == utf8_of(s@).subrange(0, j as int) + utf8_of(text) + utf8_of(s@).subrange(
                                        j + 1,
                                        n,
                                    )
                                },
                            }
                        }
                    },
                },
                _ => r == Err::<(), ValueError>(ValueError::CannotIndexInto(type_of_value(*old(self))))
                    && *final(self) == *old(self),
            },
    {
        let own_type = self.type_of();
        match self {
            Value::Array(a) => {
                let mut idx = match index.cast_integer() {
                    Ok(i) => i,
                    Err(e) => return Err(e),
                };
                if idx < 0 {
                    idx = a.len() as i128 + idx;
                }
                if idx == a.len() as i128 {
                    a.push(value);
                } else if idx > a.len() as i128 {
                    return Err(ValueError::IndexOutOfBounds);
                } else {
                    a.set(idx as usize, value);
                }
            },
            Value::Object(o) => {
                let idx = match index.cast_primitive() {
                    Ok(p) => p,
                    Err(e) => return Err(e),
                };
                o.insert(idx, value);
            },
            Value::Primitive(Primitive::String(s)) => {
                let mut idx = match index.cast_integer() {
                    Ok(i) => i,
                    Err(e) => return Err(e),
                };
                let n = s.as_str().as_bytes().len();
                if idx < 0 {
                    idx = n as i128 + idx;
                }
                if idx == n as i128 {
                    let text = match value.cast_string() {
                        Ok(t) => t,
                        Err(e) => return Err(e),
                    };
                    s.append(text.as_str());
                } else if idx > n as i128 {
                    return Err(ValueError::IndexOutOfBounds);
                } else {
                    let text = match value.cast_string() {
                        Ok(t) => t,
                        Err(e) => return Err(e),
                    };
                    let t = byte_splice(s.as_str(), idx as usize, text.as_str());
                    *s = t;
                }
            },
            _ => return Err(ValueError::CannotIndexInto(own_type)),
        }
        Ok(())
    }

    /// Whether the two values are equal: primitives of one type with equal
    /// contents, arrays element by element, objects key by key, ranges by
    /// their bounds; a function equals nothing
    pub fn equals(&self, other: &Self) -> (b: bool)
        ensures
            b == value_eq(*self, *other),
        decreases self,
    {
        match (self, other) {
            (Value::Primitive(p), Value::Primitive(q)) => p.strictly_equals(q),
            (Value::Array(a), Value::Array(b)) => {
                if a.len() != b.len() {
                    return false;
                }
                let mut i: usize = 0;
                while i < a.len()
                    invariant
                        i <= a@.len(),
                        a@.len() == b@.len(),
                        *self == Value::Array(*a),
                        *other == Value::Array(*b),
                        items_eq(a@.take(i as int), b@.take(i as int)),
                    decreases a@.len() - i,
                {
                    proof {
                        assert(decreases_to!(*self => (*self)->Array_0));
                        assert(decreases_to!(*a => a@));
                        assert(decreases_to!(a@ => a@[i as int]));
                    }
                    let same = a[i].equals(&b[i]);
                    proof {
                        assert(a@.take(i + 1).drop_last() =~= a@.take(i as int));
                        assert(b@.take(i + 1).drop_last() =~= b@.take(i as int));
                    }
                    if !same {
                        proof {
                            assert(a@.take(i + 1).last() == a@[i as int]);
                            assert(b@.take(i + 1).last() == b@[i as int]);
                            assert(!items_eq(a@.take(i + 1), b@.take(i + 1)));
                            lemma_items_eq_prefix(a@, b@, i + 1);
                        }
                        return false;
                    }
                    assert(a@.take(i + 1).last() == a@[i as int]);
                    assert(b@.take(i + 1).last() == b@[i as int]);
                    i = i + 1;
                }
                assert(a@.take(a@.len() as int) =~= a@);
                assert(b@.take(b@.len() as int) =~= b@);
                true
            },
            (Value::Object(a), Value::Object(b)) => {
                if a.entries.len() != b.entries.len() {
                    return false;
                }
                let mut i: usize = 0;
                while i < a.entries.len()
                    invariant
                        i <= a.entries@.len(),
                        *self == Value::Object(*a),
                        *other == Value::Object(*b),
                        entries_within(a.entries@.take(i as int), b.entries@),
                    decreases a.entries@.len() - i,
                {
                    proof {
                        assert(decreases_to!(*self => (*self)->Object_0));
                        assert(decreases_to!(*a => a.entries));
                        assert(decreases_to!(a.entries => a.entries@));
                        assert(decreases_to!(a.entries@ => a.entries@[i as int]));
                        assert(decreases_to!(a.entries@[i as int] => a.entries@[i as int].1));
                        assert(a.entries@.take(i + 1).drop_last() =~= a.entries@.take(i as int));
                    }
                    let same = match b.get(&a.entries[i].0) {
                        Some(w) => a.entries[i].1.equals(w),
                        None => false,
                    };
                    if !same {
                        proof {
                            assert(a.entries@.take(i + 1).last() == a.entries@[i as int]);
                            assert(!entries_within(a.entries@.take(i + 1), b.entries@));
                            lemma_entries_within_prefix(a.entries@, b.entries@, i + 1);
                        }
                        return false;
                    }
                    assert(a.entries@.take(i + 1).last() == a.entries@[i as int]);
                    i = i + 1;
                }
                assert(a.entries@.take(a.entries@.len() as int) =~= a.entries@);
                true
            },
            (Value::Range(a), Value::Range(b)) => a.start == b.start && a.end == b.end,
            _ => false,
        }
    }

    /// The error of an operation only primitives have, for two values that
    /// are not both primitives
    fn unsupported_with(self, other: Self) -> (r: Result<Self, ValueError>)
        requires
            !(self is Primitive && other is Primitive),
        ensures
            match resolution(self, other) {
                Ok(t) => r == Err::<Value, ValueError>(ValueError::InvalidOperationForType(t)),
                Err(e) => r == Err::<Value, ValueError>(e),
            },
    {
        match self.resolve(other) {
            Ok((a, _)) => Err(ValueError::InvalidOperationForType(a.type_of())),
            Err(e) => Err(e),
        }
    }

    /// Subtracts two values; only primitives have a difference
    pub fn checked_sub(self, other: Self) -> (r: Result<Self, ValueError>)
        ensures
            primitive_only(
                self,
                other,
                r,
                |p: Primitive, q: Primitive, x: Result<Primitive, ValueError>| prim_difference(p, q, x),
            ),
    {
        match (self, other) {
            (Value::Primitive(p), Value::Primitive(q)) => match p.checked_sub(q) {
                Ok(x) => Ok(Value::Primitive(x)),
                Err(e) => Err(e),
            },
            (a, b) => a.unsupported_with(b),
        }
    }

    /// Multiplies two values; only primitives have a product
    pub fn checked_mul(self, other: Self) -> (r: Result<Self, ValueError>)
        ensures
            primitive_only(
                self,
                other,
                r,
                |p: Primitive, q: Primitive, x: Result<Primitive, ValueError>| prim_product(p, q, x),
            ),
    {
        match (self, other) {
            (Value::Primitive(p), Value::Primitive(q)) => match p.checked_mul(q) {
                Ok(x) => Ok(Value::Primitive(x)),
                Err(e) => Err(e),
            },
            (a, b) => a.unsupported_with(b),
        }
    }

    /// Divides two values; only primitives have a quotient
    pub fn checked_div(self, other: Self) -> (r: Result<Self, ValueError>)
        ensures
            primitive_only(
                self,
                other,
                r,
                |p: Primitive, q: Primitive, x: Result<Primitive, ValueError>| prim_quotient(p, q, x),
            ),
    {
        match (self, other) {
            (Value::Primitive(p), Value::Primitive(q)) => match p.checked_div(q) {
                Ok(x) => Ok(Value::Primitive(x)),
                Err(e) => Err(e),
            },
            (a, b) => a.unsupported_with(b),
        }
    }

    /// The remainder of two values; only primitives have one
    pub fn checked_rem(self, other: Self) -> (r: Result<Self, ValueError>)
        ensures
            primitive_only(
                self,
                other,
                r,
                |p: Primitive, q: Primitive, x: Result<Primitive, ValueError>| prim_remainder(p, q, x),
            ),
    {
        match (self, other) {
            (Value::Primitive(p), Value::Primitive(q)) => match p.checked_rem(q) {
                Ok(x) => Ok(Value::Primitive(x)),
                Err(e) => Err(e),
            },
            (a, b) => a.unsupported_with(b),
        }
    }

    /// Bitwise and of two values; only primitives have one
    pub fn checked_and(self, other: Self) -> (r: Result<Self, ValueError>)
        ensures
            primitive_only(
                self,
                other,
                r,
                |p: Primitive, q: Primitive, x: Result<Primitive, ValueError>| prim_bit_and(p, q, x),
            ),
    {
        match (self, other) {
            (Value::Primitive(p), Value::Primitive(q)) => match p.checked_and(q) {
                Ok(x) => Ok(Value::Primitive(x)),
                Err(e) => Err(e),
            },
            (a, b) => a.unsupported_with(b),
        }
    }

    /// Bitwise or of two values; only primitives have one
    pub fn checked_or(self, other: Self) -> (r: Result<Self, ValueError>)
        ensures
            primitive_only(
                self,
                other,
                r,
                |p: Primitive, q: Primitive, x: Result<Primitive, ValueError>| prim_bit_or(p, q, x),
            ),
    {
        match (self, other) {
            (Value::Primitive(p), Value::Primitive(q)) => match p.checked_or(q) {
                Ok(x) => Ok(Value::Primitive(x)),
                Err(e) => Err(e),
            },
            (a, b) => a.unsupported_with(b),
        }
    }

    /// Bitwise exclusive or of two values; only primitives have one
    pub fn checked_xor(self, other: Self) -> (r: Result<Self, ValueError>)
        ensures
            primitive_only(
                self,
                other,
                r,
                |p: Primitive, q: Primitive, x: Result<Primitive, ValueError>| prim_bit_xor(p, q, x),
            ),
    {
        match (self, other) {
            (Value::Primitive(p), Value::Primitive(q)) => match p.checked_xor(q) {
                Ok(x) => Ok(Value::Primitive(x)),
                Err(e) => Err(e),
            },
            (a, b) => a.unsupported_with(b),
        }
    }

    /// Shifts a value left; only primitives have a shift
    pub fn checked_shl(self, other: Self) -> (r: Result<Self, ValueError>)
        requires
            shift_in_range(self, other),
        ensures
            primitive_only(
                self,
                other,
                r,
                |p: Primitive, q: Primitive, x: Result<Primitive, ValueError>| prim_shift_left(p, q, x),
            ),
    {
        match (self, other) {
            (Value::Primitive(p), Value::Primitive(q)) => match p.checked_shl(q) {
                Ok(x) => Ok(Value::Primitive(x)),
                Err(e) => Err(e),
            },
            (a, b) => a.unsupported_with(b),
        }
    }

    /// Shifts a value right; only primitives have a shift
    pub fn checked_shr(self, other: Self) -> (r: Result<Self, ValueError>)
        requires
            shift_in_range(self, other),
        ensures
            primitive_only(
                self,
                other,
                r,
                |p: Primitive, q: Primitive, x: Result<Primitive, ValueError>| prim_shift_right(p, q, x),
            ),
    {
        match (self, other) {
            (Value::Primitive(p), Value::Primitive(q)) => match p.checked_shr(q) {
                Ok(x) => Ok(Value::Primitive(x)),
                Err(e) => Err(e),
            },
            (a, b) => a.unsupported_with(b),
        }
    }

    /// Logical and of two values; only primitives have one
    pub fn checked_logical_and(self, other: Self) -> (r: Result<Self, ValueError>)
        ensures
            primitive_only(
                self,
                other,
                r,
                |p: Primitive, q: Primitive, x: Result<Primitive, ValueError>| prim_logical_and(p, q, x),
            ),
    {
        match (self, other) {
            (Value::Primitive(p), Value::Primitive(q)) => match p.checked_logical_and(q) {
                Ok(x) => Ok(Value::Primitive(x)),
                Err(e) => Err(e),
            },
            (a, b) => a.unsupported_with(b),
        }
    }

    /// Logical or of two values; only primitives have one
    pub fn checked_logical_or(self, other: Self) -> (r: Result<Self, ValueError>)
        ensures
            primitive_only(
                self,
                other,
                r,
                |p: Primitive, q: Primitive, x: Result<Primitive, ValueError>| prim_logical_or(p, q, x),
            ),
    {
        match (self, other) {
            (Value::Primitive(p), Value::Primitive(q)) => match p.checked_logical_or(q) {
                Ok(x) => Ok(Value::Primitive(x)),
                Err(e) => Err(e),
            },
            (a, b) => a.unsupported_with(b),
        }
    }

    /// Whether `self` is greater than `other`: primitives by value, collections by size
    pub fn checked_gt(self, other: Self) -> (r: Result<Self, ValueError>)
        requires
            spans_fit(self, other),
        ensures
            value_order(
                self,
                other,
                r,
                |p: Primitive, q: Primitive, x: Result<Primitive, ValueError>| prim_gt_outcome(p, q, x),
                |m: int, n: int| m > n,
            ),
    {
        match (self, other) {
            (Value::Primitive(p), Value::Primitive(q)) => match p.checked_gt(q) {
                Ok(x) => Ok(Value::Primitive(x)),
                Err(e) => Err(e),
            },
            (a, b) => match a.resolve(b) {
                Ok((Value::Array(x), Value::Array(y))) => {
                    let (m, n): (usize, usize) = (x.len(), y.len());
                    Ok(Value::boolean(m > n))
                },
                Ok((Value::Object(x), Value::Object(y))) => {
                    let (m, n): (usize, usize) = (x.len(), y.len());
                    Ok(Value::boolean(m > n))
                },
                Ok((Value::Range(x), Value::Range(y))) => {
                    let (m, n): (i128, i128) = (x.end - x.start, y.end - y.start);
                    Ok(Value::boolean(m > n))
                },
                Ok(_) => Ok(Value::boolean(false)),
                Err(e) => Err(e),
            },
        }
    }

    /// Whether `self` is at least `other`: primitives by value, collections by size
    pub fn checked_ge(self, other: Self) -> (r: Result<Self, ValueError>)
        requires
            spans_fit(self, other),
        ensures
            value_order(
                self,
                other,
                r,
                |p: Primitive, q: Primitive, x: Result<Primitive, ValueError>| prim_ge_outcome(p, q, x),
                |m: int, n: int| m >= n,
            ),
    {
        match (self, other) {
            (Value::Primitive(p), Value::Primitive(q)) => match p.checked_ge(q) {
                Ok(x) => Ok(Value::Primitive(x)),
                Err(e) => Err(e),
            },
            (a, b) => match a.resolve(b) {
                Ok((Value::Array(x), Value::Array(y))) => {
                    let (m, n): (usize, usize) = (x.len(), y.len());
                    Ok(Value::boolean(m >= n))
                },
                Ok((Value::Object(x), Value::Object(y))) => {
                    let (m, n): (usize, usize) = (x.len(), y.len());
                    Ok(Value::boolean(m >= n))
                },
                Ok((Value::Range(x), Value::Range(y))) => {
                    let (m, n): (i128, i128) = (x.end - x.start, y.end - y.start);
                    Ok(Value::boolean(m >= n))
                },
                Ok(_) => Ok(Value::boolean(false)),
                Err(e) => Err(e),
            },
        }
    }

    /// Whether `self` is less than `other`: primitives by value, collections by size
    pub fn checked_lt(self, other: Self) -> (r: Result<Self, ValueError>)
        requires
            spans_fit(self, other),
        ensures
            value_order(
                self,
                other,
                r,
                |p: Primitive, q: Primitive, x: Result<Primitive, ValueError>| prim_lt_outcome(p, q, x),
                |m: int, n: int| m < n,
            ),
    {
        match (self, other) {
            (Value::Primitive(p), Value::Primitive(q)) => match p.checked_lt(q) {
                Ok(x) => Ok(Value::Primitive(x)),
                Err(e) => Err(e),
            },
            (a, b) => match a.resolve(b) {
                Ok((Value::Array(x), Value::Array(y))) => {
                    let (m, n): (usize, usize) = (x.len(), y.len());
                    Ok(Value::boolean(m < n))
                },
                Ok((Value::Object(x), Value::Object(y))) => {
                    let (m, n): (usize, usize) = (x.len(), y.len());
                    Ok(Value::boolean(m < n))
                },
                Ok((Value::Range(x), Value::Range(y))) => {
                    let (m, n): (i128, i128) = (x.end - x.start, y.end - y.start);
                    Ok(Value::boolean(m < n))
                },
                Ok(_) => Ok(Value::boolean(false)),
                Err(e) => Err(e),
            },
        }
    }

    /// Whether `self` is at most `other`: primitives by value, collections by size
    pub fn checked_le(self, other: Self) -> (r: Result<Self, ValueError>)
        requires
            spans_fit(self, other),
        ensures
            value_order(
                self,
                other,
                r,
                |p: Primitive, q: Primitive, x: Result<Primitive, ValueError>| prim_le_outcome(p, q, x),
                |m: int, n: int| m <= n,
            ),
    {
        match (self, other) {
            (Value::Primitive(p), Value::Primitive(q)) => match p.checked_le(q) {
                Ok(x) => Ok(Value::Primitive(x)),
                Err(e) => Err(e),
            },
            (a, b) => match a.resolve(b) {
                Ok((Value::Array(x), Value::Array(y))) => {
                    let (m, n): (usize, usize) = (x.len(), y.len());
                    Ok(Value::boolean(m <= n))
                },
                Ok((Value::Object(x), Value::Object(y))) => {
                    let (m, n): (usize, usize) = (x.len(), y.len());
                    Ok(Value::boolean(m <= n))
                },
                Ok((Value::Range(x), Value::Range(y))) => {
                    let (m, n): (i128, i128) = (x.end - x.start, y.end - y.start);
                    Ok(Value::boolean(m <= n))
                },
                Ok(_) => Ok(Value::boolean(false)),
                Err(e) => Err(e),
            },
        }
    }

    /// Whether two values are equal once resolved
    pub fn checked_eq(self, other: Self) -> (r: Result<Self, ValueError>)
        ensures
            value_equality(
                self,
                other,
                r,
                |p: Primitive, q: Primitive, x: Result<Primitive, ValueError>| prim_equal_outcome(p, q, x),
                false,
            ),
    {
        match (self, other) {
            (Value::Primitive(p), Value::Primitive(q)) => match p.checked_eq(q) {
                Ok(x) => Ok(Value::Primitive(x)),
                Err(e) => Err(e),
            },
            (a, b) => match a.resolve(b) {
                Ok((Value::Range(x), Value::Range(y))) => Ok(
                    Value::boolean((x.start == y.start && x.end == y.end)),
                ),
                Ok((x, y)) => match (&x, &y) {
                    (Value::Array(_), Value::Array(_)) | (Value::Object(_), Value::Object(_)) => {
                        Ok(Value::boolean(x.equals(&y)))
                    },
                    _ => Ok(Value::boolean(false)),
                },
                Err(e) => Err(e),
            },
        }
    }

    /// Whether two values differ once resolved
    pub fn checked_ne(self, other: Self) -> (r: Result<Self, ValueError>)
        ensures
            value_equality(
                self,
                other,
                r,
                |p: Primitive, q: Primitive, x: Result<Primitive, ValueError>| prim_unequal_outcome(p, q, x),
                true,
            ),
    {
        match (self, other) {
            (Value::Primitive(p), Value::Primitive(q)) => match p.checked_ne(q) {
                Ok(x) => Ok(Value::Primitive(x)),
                Err(e) => Err(e),
            },
            (a, b) => match a.resolve(b) {
                Ok((Value::Range(x), Value::Range(y))) => Ok(
                    Value::boolean(!(x.start == y.start && x.end == y.end)),
                ),
                Ok((x, y)) => match (&x, &y) {
                    (Value::Array(_), Value::Array(_)) | (Value::Object(_), Value::Object(_)) => {
                        Ok(Value::boolean(!x.equals(&y)))
                    },
                    _ => Ok(Value::boolean(false)),
                },
                Err(e) => Err(e),
            },
        }
    }

    /// Adds two values: primitives by their addition, arrays by joining them,
    /// objects by inserting the entries of the second into the first, after
    /// resolving them to a common type
    pub fn checked_add(self, other: Self) -> (r: Result<Self, ValueError>)
        ensures
            match (self, other) {
                (Value::Primitive(p), Value::Primitive(q)) => prim_outcome(r) matches Some(x) && prim_sum(p, q, x),
                _ => match resolution(self, other) {
                    Ok(ValueType::Array) => r matches Ok(Value::Array(c)) && c@ == array_elems(self)
                        + array_elems(other),
                    Ok(ValueType::Object) => r matches Ok(Value::Object(o)) && o.entries() == inserted_into(
                        object_elems(self),
                        object_elems(other),
                    ),
                    Ok(t) => r == Err::<Value, ValueError>(ValueError::InvalidOperationForType(t)),
                    Err(e) => r == Err::<Value, ValueError>(e),
                },
            },
    {
        match (self, other) {
            (Value::Primitive(p), Value::Primitive(q)) => match p.checked_add(q) {
                Ok(x) => Ok(Value::Primitive(x)),
                Err(e) => Err(e),
            },
            (a, b) => match a.resolve(b) {
                Ok((Value::Array(x), Value::Array(y))) => {
                    let mut x = x;
                    let mut y = y;
                    x.append(&mut y);
                    Ok(Value::Array(x))
                },
                Ok((Value::Object(x), Value::Object(y))) => {
                    let mut x = x;
                    x.extend(y.into_entries());
                    Ok(Value::Object(x))
                },
                Ok((x, _)) => Err(ValueError::InvalidOperationForType(x.type_of())),
                Err(e) => Err(e),
            },
        }
    }

    /// Negates a value: a primitive by its negation, an array by reversing it
    pub fn checked_neg(self) -> (r: Result<Self, ValueError>)
        requires
            !(self matches Value::Primitive(Primitive::Integer(i)) && i == i128::MIN),
        ensures
            match self {
                Value::Primitive(p) => prim_outcome(r) matches Some(x) && prim_negation(p, x),
                Value::Array(a) => r matches Ok(Value::Array(b)) && b@ == a@.reverse(),
                _ => r == Err::<Value, ValueError>(ValueError::InvalidOperationForType(type_of_value(self))),
            },
    {
        let t = self.type_of();
        match self {
            Value::Primitive(p) => match p.checked_neg() {
                Ok(x) => Ok(Value::Primitive(x)),
                Err(e) => Err(e),
            },
            Value::Array(a) => Ok(Value::Array(reverse_vec(a))),
            _ => Err(ValueError::InvalidOperationForType(t)),
        }
    }

    /// Bitwise not of a value; only primitives have one
    pub fn checked_not(self) -> (r: Result<Self, ValueError>)
        ensures
            match self {
                Value::Primitive(p) => prim_outcome(r) matches Some(x) && prim_bit_not(p, x),
                _ => r == Err::<Value, ValueError>(ValueError::InvalidOperationForType(type_of_value(self))),
            },
    {
        let t = self.type_of();
        match self {
            Value::Primitive(p) => match p.checked_not() {
                Ok(x) => Ok(Value::Primitive(x)),
                Err(e) => Err(e),
            },
            _ => Err(ValueError::InvalidOperationForType(t)),
        }
    }

    /// Logical not of a value; only primitives have one
    pub fn checked_logical_not(self) -> (r: Result<Self, ValueError>)
        ensures
            match self {
                Value::Primitive(p) => r == Ok::<Value, ValueError>(Value::Primitive(Primitive::Boolean(!truth(p)))),
                _ => r == Err::<Value, ValueError>(ValueError::InvalidOperationForType(type_of_value(self))),
            },
    {
        let t = self.type_of();
        match self {
            Value::Primitive(p) => match p.checked_logical_not() {
                Ok(x) => Ok(Value::Primitive(x)),
                Err(e) => Err(e),
            },
            _ => Err(ValueError::InvalidOperationForType(t)),
        }
    }

    /// Strict equality: two primitives of one type with equal contents, or
    /// two collections of one kind that are equal; false otherwise
    pub fn checked_seq(self, other: Self) -> (r: Result<Self, ValueError>)
        ensures
            r == Ok::<Value, ValueError>(Value::Primitive(Primitive::Boolean(value_eq(self, other)))),
    {
        Ok(Value::boolean(self.equals(&other)))
    }

    /// Strict inequality of two primitives; for two collections of one kind
    /// it gives whether they are equal, as the reference implementation does;
    /// false otherwise
    pub fn checked_sne(self, other: Self) -> (r: Result<Self, ValueError>)
        ensures
            match (self, other) {
                (Value::Primitive(p), Value::Primitive(q)) => r == Ok::<Value, ValueError>(
                    Value::Primitive(Primitive::Boolean(!prim_eq(p, q))),
                ),
                _ => r == Ok::<Value, ValueError>(Value::Primitive(Primitive::Boolean(value_eq(self, other)))),
            },
    {
        match (self, other) {
            (Value::Primitive(p), Value::Primitive(q)) => Ok(Value::boolean(!p.strictly_equals(&q))),
            (a, b) => Ok(Value::boolean(a.equals(&b))),
        }
    }

    /// Whether a primitive is a string, or converts to one next to a string
    fn is_text_pair(&self, other: &Self) -> (b: bool)
        ensures
            b == text_pair(*self, *other),
    {
        match (self, other) {
            (Value::Primitive(Primitive::String(_)), Value::Primitive(_)) => true,
            (Value::Primitive(_), Value::Primitive(Primitive::String(_))) => true,
            _ => false,
        }
    }

    /// The text of a primitive value
    fn primitive_text(&self) -> (s: String)
        requires
            *self is Primitive,
        ensures
            s@ == prim_text((*self)->Primitive_0),
    {
        match self {
            Value::Primitive(p) => p.clone_text(),
            _ => String::new(),
        }
    }

    /// Whether the value matches `other`: a string against a written
    /// pattern, which must match the whole of it; other values by equality
    pub fn checked_matches(self, other: Self) -> (r: Result<Self, ValueError>)
        ensures
            text_pair(self, other) ==> r == regex_value(
                prim_text(self->Primitive_0),
                prim_text(other->Primitive_0),
                Anchoring::Whole,
            ),
            !text_pair(self, other) ==> value_equality(
                self,
                other,
                r,
                |p: Primitive, q: Primitive, x: Result<Primitive, ValueError>| prim_equal_outcome(p, q, x),
                false,
            ),
    {
        if self.is_text_pair(&other) {
            let text = self.primitive_text();
            let pattern = other.primitive_text();
            match checked_regex(text.as_str(), pattern.as_str(), Anchoring::Whole) {
                Ok(b) => Ok(Value::boolean(b)),
                Err(e) => Err(e),
            }
        } else {
            self.checked_eq(other)
        }
    }

    /// Whether `self` contains `other`: a string a match of a written
    /// pattern anywhere in it; an array an element equal to `other` as an
    /// array; objects and ranges fail to take the key; no other type
    pub fn checked_contains(self, other: Self) -> (r: Result<Self, ValueError>)
        ensures
            text_pair(self, other) ==> r == regex_value(
                prim_text(self->Primitive_0),
                prim_text(other->Primitive_0),
                Anchoring::Anywhere,
            ),
            !text_pair(self, other) ==> match resolution(self, other) {
                Err(e) => r == Err::<Value, ValueError>(e),
                Ok(ValueType::Array) => r == Ok::<Value, ValueError>(
                    Value::Primitive(Primitive::Boolean(exists|i: int|
                        0 <= i < array_elems(self).len() && holds_array(#[trigger] array_elems(self)[i], array_elems(other)))),
                ),
                Ok(ValueType::Object) => r == Err::<Value, ValueError>(
                    ValueError::TypeConversion(ValueType::Object, ValueType::Primitive),
                ),
                Ok(ValueType::Range) => r == Err::<Value, ValueError>(
                    ValueError::TypeConversion(ValueType::Range, ValueType::Integer),
                ),
                Ok(_) => r == Err::<Value, ValueError>(
                    ValueError::InvalidOperationForType(failing_type(self, other)),
                ),
            },
    {
        if self.is_text_pair(&other) {
            let text = self.primitive_text();
            let pattern = other.primitive_text();
            return match checked_regex(text.as_str(), pattern.as_str(), Anchoring::Anywhere) {
                Ok(b) => Ok(Value::boolean(b)),
                Err(e) => Err(e),
            };
        }
        let ghost (sv, ov) = (self, other);
        match self.resolve(other) {
            Err(e) => Err(e),
            Ok((Value::Array(a), b)) => {
                let ghost y = array_elems(ov);
                assert(a@ == array_elems(sv));
                assert(b matches Value::Array(z) && z@ == y);
                let mut i: usize = 0;
                while i < a.len()
                    invariant
                        i <= a@.len(),
                        sv == self,
                        ov == other,
                        !text_pair(sv, ov),
                        resolution(sv, ov) == Ok::<ValueType, ValueError>(ValueType::Array),
                        a@ == array_elems(sv),
                        y == array_elems(ov),
                        b matches Value::Array(z) && z@ == y,
                        forall|j: int| 0 <= j < i ==> !holds_array(#[trigger] a@[j], y),
                    decreases a@.len() - i,
                {
                    if a[i].equals(&b) {
                        assert(holds_array(array_elems(sv)[i as int], y));
                        assert(i < array_elems(self).len());
                        assert(exists|k: int| 0 <= k < array_elems(self).len() && holds_array(
                            #[trigger] array_elems(self)[k], array_elems(other)));
                        return Ok(Value::boolean(true));
                    }
                    i = i + 1;
                }
                Ok(Value::boolean(false))
            },
            Ok((Value::Object(_), b)) => match b.cast_primitive() {
                Ok(_) => Ok(Value::boolean(false)),
                Err(e) => Err(e),
            },
            Ok((Value::Range(_), b)) => match b.cast_integer() {
                Ok(_) => Ok(Value::boolean(false)),
                Err(e) => Err(e),
            },
            Ok((a, _)) => Err(ValueError::InvalidOperationForType(a.type_of())),
        }
    }

    /// Whether `self` starts with `other`: a string with a match of a written pattern, an array with the elements of another, a range with the start of a range inside it
    pub fn checked_starts_with(self, other: Self) -> (r: Result<Self, ValueError>)
        ensures
            text_pair(self, other) ==> r == regex_value(
                prim_text(self->Primitive_0),
                prim_text(other->Primitive_0),
                Anchoring::Start,
            ),
            !text_pair(self, other) ==> match resolution(self, other) {
                Err(e) => r == Err::<Value, ValueError>(e),
                Ok(ValueType::Array) => r == Ok::<Value, ValueError>(
                    Value::Primitive(Primitive::Boolean(items_prefix(array_elems(self), array_elems(other)))),
                ),
                Ok(ValueType::Range) => r == Ok::<Value, ValueError>(
                    Value::Primitive(Primitive::Boolean(other->Range_0.start == self->Range_0.start && other->Range_0.end <= self->Range_0.end)),
                ),
                Ok(ValueType::Object) => r == Err::<Value, ValueError>(
                    ValueError::InvalidOperationForType(ValueType::Object),
                ),
                Ok(_) => r == Err::<Value, ValueError>(
                    ValueError::InvalidOperationForType(failing_type(self, other)),
                ),
            },
    {
        if self.is_text_pair(&other) {
            let text = self.primitive_text();
            let pattern = other.primitive_text();
            return match checked_regex(text.as_str(), pattern.as_str(), Anchoring::Start) {
                Ok(b) => Ok(Value::boolean(b)),
                Err(e) => Err(e),
            };
        }
        match self.resolve(other) {
            Err(e) => Err(e),
            Ok((Value::Array(a), Value::Array(b))) => {
                if b.len() > a.len() {
                    return Ok(Value::boolean(false));
                }
                let off: usize = 0;
                let same = items_match(&a, off, &b);
                proof {
                    assert(a@.take(b@.len() as int) =~= a@.subrange(0, b@.len() as int));
                }
                Ok(Value::boolean(same))
            },
            Ok((Value::Range(a), Value::Range(b))) => Ok(Value::boolean(b.start == a.start && b.end <= a.end)),
            Ok((a, _)) => Err(ValueError::InvalidOperationForType(a.type_of())),
        }
    }

    /// Whether `self` ends with `other`: a string with a match of a written pattern, an array with the elements of another, a range with the end of a range inside it
    pub fn checked_ends_with(self, other: Self) -> (r: Result<Self, ValueError>)
        ensures
            text_pair(self, other) ==> r == regex_value(
                prim_text(self->Primitive_0),
                prim_text(other->Primitive_0),
                Anchoring::End,
            ),
            !text_pair(self, other) ==> match resolution(self, other) {
                Err(e) => r == Err::<Value, ValueError>(e),
                Ok(ValueType::Array) => r == Ok::<Value, ValueError>(
                    Value::Primitive(Primitive::Boolean(items_suffix(array_elems(self), array_elems(other)))),
                ),
                Ok(ValueType::Range) => r == Ok::<Value, ValueError>(
                    Value::Primitive(Primitive::Boolean(self->Range_0.end == other->Range_0.end && other->Range_0.start >= self->Range_0.start)),
                ),
                Ok(ValueType::Object) => r == Err::<Value, ValueError>(
                    ValueError::InvalidOperationForType(ValueType::Object),
                ),
                Ok(_) => r == Err::<Value, ValueError>(
                    ValueError::InvalidOperationForType(failing_type(self, other)),
                ),
            },
    {
        if self.is_text_pair(&other) {
            let text = self.primitive_text();
            let pattern = other.primitive_text();
            return match checked_regex(text.as_str(), pattern.as_str(), Anchoring::End) {
                Ok(b) => Ok(Value::boolean(b)),
                Err(e) => Err(e),
            };
        }
        match self.resolve(other) {
            Err(e) => Err(e),
            Ok((Value::Array(a), Value::Array(b))) => {
                if b.len() > a.len() {
                    return Ok(Value::boolean(false));
                }
                let off: usize = a.len() - b.len();
                let same = items_match(&a, off, &b);
                proof {
                    assert(a@.skip(a@.len() - b@.len()) =~= a@.subrange(off as int, off + b@.len()));
                }
                Ok(Value::boolean(same))
            },
            Ok((Value::Range(a), Value::Range(b))) => Ok(Value::boolean(a.end == b.end && b.start >= a.start)),
            Ok((a, _)) => Err(ValueError::InvalidOperationForType(a.type_of())),
        }
    }
}

} // verus!
