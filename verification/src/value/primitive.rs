//! Primitive values: booleans, integers, decimals and strings, with their
//! conversions and the operators on them.
use crate::text::{chars_of, i128_string, int_text, str_eq, string_from_chars, text_less, text_lt};
use crate::value::error::ValueError;
use crate::value::number::{
    number_difference, number_eq, number_lt, number_negation, number_product, number_quotient,
    number_remainder, number_sum, number_text, Decimal, Number,
};
use crate::value::types::{type_code, ValueType};
use crate::traits::{ByteDecodeError, ByteReader, SerializeToBytes};
use vstd::prelude::*;

verus! {

/// Represents a primitive value
#[derive(Debug, Clone)]
pub enum Primitive {
    /// A boolean value
    Boolean(bool),
    /// An integer value
    Integer(i128),
    /// A decimal value
    Decimal(Number),
    /// A string value
    String(String),
}

/// The type of a primitive
pub open spec fn prim_type(p: Primitive) -> ValueType {
    match p {
        Primitive::Boolean(_) => ValueType::Boolean,
        Primitive::Integer(_) => ValueType::Integer,
        Primitive::Decimal(_) => ValueType::Decimal,
        Primitive::String(_) => ValueType::String,
    }
}

/// The numbers inside are well formed
pub open spec fn prim_wf(p: Primitive) -> bool {
    match p {
        Primitive::Decimal(n) => n.wf(),
        _ => true,
    }
}

/// The truth of a primitive: a boolean itself, a number that is not zero, a
/// string that is not empty
pub open spec fn truth(p: Primitive) -> bool {
    match p {
        Primitive::Boolean(b) => b,
        Primitive::Integer(i) => i != 0,
        Primitive::Decimal(d) => d.value().coeff != 0,
        Primitive::String(s) => s@.len() > 0,
    }
}

/// The text of a primitive
pub open spec fn prim_text(p: Primitive) -> Seq<char> {
    match p {
        Primitive::Boolean(b) => if b {
            "true"@
        } else {
            "false"@
        },
        Primitive::Integer(i) => int_text(i as int),
        Primitive::Decimal(d) => number_text(d),
        Primitive::String(s) => s@,
    }
}

/// The integer a primitive converts to: a boolean as 0 or 1, a decimal when
/// it is integral; not a string
pub open spec fn prim_int(p: Primitive) -> Option<int> {
    match p {
        Primitive::Boolean(b) => Some(if b { 1int } else { 0int }),
        Primitive::Integer(i) => Some(i as int),
        Primitive::Decimal(d) => if (d.value().coeff as int) % crate::value::number::pow10(
            d.value().n_frac_digits as nat,
        ) == 0 {
            Some(d.value().coeff as int / crate::value::number::pow10(d.value().n_frac_digits as nat))
        } else {
            None
        },
        Primitive::String(_) => None,
    }
}

/// Two primitives are equal: of one type and with equal contents; decimals by
/// value, symbol and precision
pub open spec fn prim_eq(a: Primitive, b: Primitive) -> bool {
    match (a, b) {
        (Primitive::Boolean(x), Primitive::Boolean(y)) => x == y,
        (Primitive::Integer(x), Primitive::Integer(y)) => x == y,
        (Primitive::Decimal(x), Primitive::Decimal(y)) => number_eq(x, y),
        (Primitive::String(x), Primitive::String(y)) => x@ == y@,
        _ => false,
    }
}

/// The text with every occurrence of `pat`, from left to right, taken out
pub open spec fn remove_all(s: Seq<char>, pat: Seq<char>) -> Seq<char>
    decreases s.len(),
{
    if pat.len() == 0 || s.len() == 0 {
        s
    } else if pat.len() <= s.len() && s.subrange(0, pat.len() as int) == pat {
        remove_all(s.skip(pat.len() as int), pat)
    } else {
        seq![s[0]] + remove_all(s.skip(1), pat)
    }
}

fn text_remove_all(s: &Vec<char>, pat: &Vec<char>) -> (r: Vec<char>)
    ensures
        r@ == remove_all(s@, pat@),
{
    let mut out: Vec<char> = Vec::new();
    if pat.len() == 0 {
        let mut k: usize = 0;
        while k < s.len()
            invariant
                k <= s@.len(),
                out@ == s@.take(k as int),
            decreases s@.len() - k,
        {
            out.push(s[k]);
            k = k + 1;
            assert(out@ =~= s@.take(k as int));
        }
        assert(s@.take(s@.len() as int) =~= s@);
        return out;
    }
    let mut i: usize = 0;
    assert(s@.skip(0) =~= s@);
    assert(out@ + remove_all(s@, pat@) =~= remove_all(s@, pat@));
    while i < s.len()
        invariant
            i <= s@.len(),
            pat@.len() > 0,
            remove_all(s@, pat@) == out@ + remove_all(s@.skip(i as int), pat@),
        decreases s@.len() - i,
    {
        let ghost rest = s@.skip(i as int);
        let mut matched = pat.len() <= s.len() - i;
        let mut k: usize = 0;
        while matched && k < pat.len()
            invariant
                k <= pat@.len(),
                i < s@.len() <= usize::MAX,
                matched ==> pat@.len() <= s@.len() - i,
                matched ==> forall|j: int| 0 <= j < k ==> s@[i + j] == pat@[j],
                !matched ==> pat@.len() > s@.len() - i || exists|j: int| 0 <= j < pat@.len() && i + j < s@.len() && s@[i + j] != pat@[j],
            decreases pat@.len() - k,
        {
            if s[i + k] != pat[k] {
                matched = false;
            }
            k = k + 1;
        }
        proof {
            if matched {
                assert(rest.subrange(0, pat@.len() as int) =~= pat@);
            } else if pat@.len() <= rest.len() {
                let j = choose|j: int| 0 <= j < pat@.len() && s@[i + j] != pat@[j];
                assert(rest.subrange(0, pat@.len() as int)[j] != pat@[j]);
            }
        }
        if matched {
            assert(rest.skip(pat@.len() as int) =~= s@.skip(i + pat@.len()));
            i = i + pat.len();
        } else {
            let ghost old_out = out@;
            assert(rest.skip(1) =~= s@.skip(i + 1));
            assert(rest[0] == s@[i as int]);
            assert(remove_all(rest, pat@) == seq![rest[0]] + remove_all(rest.skip(1), pat@));
            out.push(s[i]);
            assert(old_out + (seq![s@[i as int]] + remove_all(s@.skip(i + 1), pat@)) =~= out@ + remove_all(s@.skip(i + 1), pat@));
            i = i + 1;
        }
    }
    assert(s@.skip(s@.len() as int) =~= Seq::<char>::empty());
    assert(out@ + Seq::<char>::empty() =~= out@);
    out
}


/// The result of resolving two primitives to a common type: to strings when
/// either is one, else to decimals when either is one, else to integers when
/// either is one, else both stay booleans
pub open spec fn resolved_type(a: Primitive, b: Primitive) -> ValueType {
    if a is String || b is String {
        ValueType::String
    } else if a is Decimal || b is Decimal {
        ValueType::Decimal
    } else if a is Integer || b is Integer {
        ValueType::Integer
    } else {
        ValueType::Boolean
    }
}

/// `a` and `b` are `p` and `q` brought to their common type
pub open spec fn prim_resolves(p: Primitive, q: Primitive, a: Primitive, b: Primitive) -> bool {
    &&& prim_type(a) == resolved_type(p, q)
    &&& prim_type(b) == resolved_type(p, q)
    &&& converts_to(p, a)
    &&& converts_to(q, b)
    &&& resolved_type(p, q) == ValueType::Decimal ==> a == Primitive::Decimal(as_number(p)) && b
        == Primitive::Decimal(as_number(q))
}

/// The number a primitive converts to: a decimal itself, an integer or a
/// boolean as the number of its integer
pub open spec fn as_number(p: Primitive) -> Number {
    match p {
        Primitive::Decimal(d) => d,
        Primitive::Integer(i) => Number::int_number(i),
        Primitive::Boolean(b) => Number::int_number(if b { 1 } else { 0 }),
        Primitive::String(_) => Number::int_number(0),
    }
}

/// `p` stands for `q` converted to the type of `p`: as its text, as a decimal of
/// the same value, as its integer, or as its truth
pub open spec fn converts_to(q: Primitive, p: Primitive) -> bool {
    match p {
        Primitive::String(s) => s@ == prim_text(q),
        Primitive::Decimal(d) => match q {
            Primitive::Decimal(e) => d == e,
            _ => prim_int(q) matches Some(v) && d.wf() && d.value() == (Decimal { coeff: v as i128, n_frac_digits: 0 }) && d.symbol() is None && d.precision() is None,
        },
        Primitive::Integer(i) => prim_int(q) == Some(i as int),
        Primitive::Boolean(b) => b == truth(q),
    }
}

/// Every primitive is well formed: a decimal's number keeps its precision
fn primitive_wf(p: &Primitive)
    ensures
        prim_wf(*p),
{
    if let Primitive::Decimal(d) = p {
        proof {
            use_type_invariant(d);
        }
    }
}

impl Primitive {
    /// Returns the type of the primitive
    pub fn type_of(&self) -> (t: ValueType)
        ensures
            t == prim_type(*self),
    {
        match self {
            Primitive::Boolean(_) => ValueType::Boolean,
            Primitive::Integer(_) => ValueType::Integer,
            Primitive::Decimal(_) => ValueType::Decimal,
            Primitive::String(_) => ValueType::String,
        }
    }

    /// Converts the primitive to a boolean: its truth
    pub fn as_boolean(self) -> (p: Self)
        ensures
            p == Primitive::Boolean(truth(self)),
    {
        let b = self.into_boolean();
        Primitive::Boolean(b)
    }

    /// The truth of the primitive
    pub fn into_boolean(self) -> (b: bool)
        ensures
            b == truth(self),
    {
        match self {
            Primitive::Boolean(b) => b,
            Primitive::Integer(i) => i != 0,
            Primitive::Decimal(d) => !d.is_zero(),
            Primitive::String(s) => s.as_str().unicode_len() != 0,
        }
    }

    /// Converts the primitive to an integer, when it has one
    pub fn as_integer(self) -> (p: Option<Self>)
        ensures
            match prim_int(self) {
                Some(v) => p == Some(Primitive::Integer(v as i128)),
                None => p is None,
            },
    {
        primitive_wf(&self);
        match self.into_integer() {
            Some(i) => Some(Primitive::Integer(i)),
            None => None,
        }
    }

    /// The integer of the primitive, when it has one
    pub fn into_integer(self) -> (r: Option<i128>)
        ensures
            match prim_int(self) {
                Some(v) => r == Some(v as i128) && i128::MIN <= v <= i128::MAX,
                None => r is None,
            },
    {
        primitive_wf(&self);
        match self {
            Primitive::Boolean(b) => Some(if b { 1 } else { 0 }),
            Primitive::Integer(i) => Some(i),
            Primitive::Decimal(d) => {
                let r = d.to_i128();
                proof {
                    if let Some(v) = r {
                        let p = crate::value::number::pow10(d.value().n_frac_digits as nat);
                        crate::value::number::lemma_pow10_pos(d.value().n_frac_digits as nat);
                        vstd::arithmetic::div_mod::lemma_div_multiples_vanish(v as int, p);
                        assert(v * p == d.value().coeff);
                        assert((v as int * p) / p == v) by (nonlinear_arith)
                            requires p > 0;
                    }
                }
                r
            },
            Primitive::String(_) => None,
        }
    }

    /// Converts the primitive to a decimal: a boolean or integer becomes the
    /// number of its integer; not a string
    pub fn as_decimal(self) -> (p: Option<Self>)
        ensures
            self is String ==> p is None,
            !(self is String) ==> (p matches Some(q) && q is Decimal && converts_to(self, q) && prim_wf(q)),
            !(self is String) ==> p == Some(Primitive::Decimal(as_number(self))),
    {
        primitive_wf(&self);
        match self {
            Primitive::Boolean(b) => Some(Primitive::Decimal(Number::from_i128(if b { 1 } else { 0 }))),
            Primitive::Integer(i) => Some(Primitive::Decimal(Number::from_i128(i))),
            Primitive::Decimal(d) => Some(Primitive::Decimal(d)),
            Primitive::String(_) => None,
        }
    }

    /// Converts the primitive to its text
    pub fn as_string(self) -> (p: Self)
        ensures
            p matches Primitive::String(s) && s@ == prim_text(self),
    {
        primitive_wf(&self);
        match self {
            Primitive::Boolean(b) => Primitive::String(String::from_str(if b { "true" } else { "false" })),
            Primitive::Integer(i) => Primitive::String(i128_string(i)),
            Primitive::Decimal(d) => Primitive::String(d.to_string()),
            Primitive::String(s) => Primitive::String(s),
        }
    }

    /// Converts the primitive to a type; `None` where it has no such value
    pub fn into_type(self, value_type: ValueType) -> (p: Option<Self>)
        ensures
            value_type == ValueType::Boolean ==> p == Some(Primitive::Boolean(truth(self))),
            value_type == ValueType::Integer ==> match prim_int(self) {
                Some(v) => p == Some(Primitive::Integer(v as i128)),
                None => p is None,
            },
            value_type == ValueType::Decimal ==> (self is String ==> p is None) && (!(self is String) ==> (p matches Some(q) && q is Decimal && converts_to(self, q))),
            value_type == ValueType::String ==> (p matches Some(q) && q matches Primitive::String(s) && s@ == prim_text(self)),
            value_type == ValueType::Numeric ==> (self is String ==> p is None) && (!(self is String) ==> p == Some(self)),
            value_type == ValueType::All || value_type == ValueType::Primitive ==> p == Some(self),
            value_type == ValueType::Array || value_type == ValueType::Object || value_type == ValueType::Range || value_type == ValueType::Function || value_type == ValueType::Collection ==> p is None,
    {
        primitive_wf(&self);
        match value_type {
            ValueType::Boolean => Some(self.as_boolean()),
            ValueType::Integer => self.as_integer(),
            ValueType::Decimal => self.as_decimal(),
            ValueType::String => Some(self.as_string()),
            ValueType::Numeric => match self {
                Primitive::String(_) => None,
                _ => Some(self),
            },
            ValueType::All | ValueType::Primitive => Some(self),
            _ => None,
        }
    }

    /// Resolves two primitives to a common type; the priority is string,
    /// decimal, integer, boolean
    pub fn resolve(self, other: Self) -> (r: Option<(Self, Self)>)
        ensures
            r matches Some((a, b)) && prim_resolves(self, other, a, b) && prim_wf(a) && prim_wf(b),
            resolved_type(self, other) == ValueType::Decimal ==> r == Some(
                (Primitive::Decimal(as_number(self)), Primitive::Decimal(as_number(other))),
            ),
    {
        primitive_wf(&self);
        primitive_wf(&other);
        match (self, other) {
            (Primitive::String(s), o) => Some((Primitive::String(s), o.as_string())),
            (a, Primitive::String(s)) => Some((a.as_string(), Primitive::String(s))),
            (Primitive::Decimal(d), o) => Some((Primitive::Decimal(d), o.as_decimal().unwrap())),
            (a, Primitive::Decimal(d)) => Some((a.as_decimal().unwrap(), Primitive::Decimal(d))),
            (Primitive::Integer(i), o) => Some((Primitive::Integer(i), o.as_integer().unwrap())),
            (a, Primitive::Integer(i)) => Some((a.as_integer().unwrap(), Primitive::Integer(i))),
            (Primitive::Boolean(b), o) => Some((Primitive::Boolean(b), o.as_boolean())),
        }
    }
}

/// The integer a boolean or integer primitive stands for
pub open spec fn int_value(p: Primitive) -> i128 {
    match prim_int(p) {
        Some(v) => v as i128,
        None => 0,
    }
}

/// What an integer operation gives: its value, or an overflow error where it
/// has none
pub open spec fn int_outcome(v: Option<i128>) -> Result<Primitive, ValueError> {
    match v {
        Some(x) => Ok(Primitive::Integer(x)),
        None => Err(ValueError::ArithmeticOverflow),
    }
}

/// The outcome of an operation as an outcome on numbers; none where it holds
/// a primitive that is not a decimal
pub open spec fn number_outcome(r: Result<Primitive, ValueError>) -> Option<Result<Number, ValueError>> {
    match r {
        Ok(Primitive::Decimal(n)) => Some(Ok(n)),
        Ok(_) => None,
        Err(e) => Some(Err(e)),
    }
}

/// The error for an operation that a type does not have
pub open spec fn invalid_for(t: ValueType) -> Result<Primitive, ValueError> {
    Err(ValueError::InvalidOperationForType(t))
}

/// `a` comes before `b` once both are brought to their common type
pub open spec fn compares_less(a: Primitive, b: Primitive) -> bool {
    match resolved_type(a, b) {
        ValueType::Boolean => !truth(a) && truth(b),
        ValueType::Integer => int_value(a) < int_value(b),
        ValueType::Decimal => number_lt(as_number(a), as_number(b)),
        _ => text_lt(prim_text(a), prim_text(b)),
    }
}

/// `a` equals `b` once both are brought to their common type
pub open spec fn compares_equal(a: Primitive, b: Primitive) -> bool {
    match resolved_type(a, b) {
        ValueType::Boolean => truth(a) == truth(b),
        ValueType::Integer => int_value(a) == int_value(b),
        ValueType::Decimal => number_eq(as_number(a), as_number(b)),
        _ => prim_text(a) == prim_text(b),
    }
}

/// What adding two primitives gives
pub open spec fn prim_sum(p: Primitive, q: Primitive, r: Result<Primitive, ValueError>) -> bool {
    &&& resolved_type(p, q) == ValueType::Boolean ==> r == Ok::<Primitive, ValueError>(
        Primitive::Boolean(truth(p) != truth(q))
    )
    &&& resolved_type(p, q) == ValueType::Integer ==> r == int_outcome(
        int_value(p).checked_add(int_value(q))
    )
    &&& resolved_type(p, q) == ValueType::Decimal ==> (number_outcome(r) matches Some(x)
        && number_sum(as_number(p), as_number(q), x))
    &&& resolved_type(p, q) == ValueType::String ==> (r matches Ok(Primitive::String(t))
        && t@ == prim_text(p) + prim_text(q))
}

/// What subtracting two primitives gives
pub open spec fn prim_difference(p: Primitive, q: Primitive, r: Result<Primitive, ValueError>) -> bool {
    &&& resolved_type(p, q) == ValueType::Boolean ==> r == Ok::<Primitive, ValueError>(
        Primitive::Boolean(truth(p) != truth(q))
    )
    &&& resolved_type(p, q) == ValueType::Integer ==> r == int_outcome(
        int_value(p).checked_sub(int_value(q))
    )
    &&& resolved_type(p, q) == ValueType::Decimal ==> (number_outcome(r) matches Some(x)
        && number_difference(as_number(p), as_number(q), x))
    &&& resolved_type(p, q) == ValueType::String ==> (r matches Ok(Primitive::String(t))
        && t@ == remove_all(prim_text(p), prim_text(q)))
}

/// What multiplying two primitives gives
pub open spec fn prim_product(p: Primitive, q: Primitive, r: Result<Primitive, ValueError>) -> bool {
    &&& resolved_type(p, q) == ValueType::Boolean ==> r == Ok::<Primitive, ValueError>(
        Primitive::Boolean(truth(p) && truth(q))
    )
    &&& resolved_type(p, q) == ValueType::Integer ==> r == int_outcome(
        int_value(p).checked_mul(int_value(q))
    )
    &&& resolved_type(p, q) == ValueType::Decimal ==> (number_outcome(r) matches Some(x)
        && number_product(as_number(p), as_number(q), x))
    &&& resolved_type(p, q) == ValueType::String ==> r == invalid_for(ValueType::String)
}

/// What dividing two primitives gives
pub open spec fn prim_quotient(p: Primitive, q: Primitive, r: Result<Primitive, ValueError>) -> bool {
    &&& resolved_type(p, q) == ValueType::Boolean ==> r == Ok::<Primitive, ValueError>(
        Primitive::Boolean(truth(p) && truth(q))
    )
    &&& resolved_type(p, q) == ValueType::Integer ==> r == int_outcome(
        int_value(p).checked_div(int_value(q))
    )
    &&& resolved_type(p, q) == ValueType::Decimal ==> (number_outcome(r) matches Some(x)
        && number_quotient(as_number(p), as_number(q), x))
    &&& resolved_type(p, q) == ValueType::String ==> r == invalid_for(ValueType::String)
}

/// What the remainder of two primitives gives
pub open spec fn prim_remainder(p: Primitive, q: Primitive, r: Result<Primitive, ValueError>) -> bool {
    &&& resolved_type(p, q) == ValueType::Boolean ==> r == Ok::<Primitive, ValueError>(
        Primitive::Boolean(truth(p) && truth(q))
    )
    &&& resolved_type(p, q) == ValueType::Integer ==> r == int_outcome(
        int_value(p).checked_rem(int_value(q))
    )
    &&& resolved_type(p, q) == ValueType::Decimal ==> (number_outcome(r) matches Some(x)
        && number_remainder(as_number(p), as_number(q), x))
    &&& resolved_type(p, q) == ValueType::String ==> r == invalid_for(ValueType::String)
}

/// What the bitwise and of two primitives gives
pub open spec fn prim_bit_and(p: Primitive, q: Primitive, r: Result<Primitive, ValueError>) -> bool {
    &&& resolved_type(p, q) == ValueType::Boolean ==> r == Ok::<Primitive, ValueError>(
        Primitive::Boolean(truth(p) && truth(q))
    )
    &&& resolved_type(p, q) == ValueType::Integer ==> r == Ok::<Primitive, ValueError>(
        Primitive::Integer(int_value(p) & int_value(q))
    )
    &&& resolved_type(p, q) == ValueType::Decimal || resolved_type(p, q)
        == ValueType::String ==> r == invalid_for(resolved_type(p, q))
}

/// What the bitwise or of two primitives gives
pub open spec fn prim_bit_or(p: Primitive, q: Primitive, r: Result<Primitive, ValueError>) -> bool {
    &&& resolved_type(p, q) == ValueType::Boolean ==> r == Ok::<Primitive, ValueError>(
        Primitive::Boolean(truth(p) || truth(q))
    )
    &&& resolved_type(p, q) == ValueType::Integer ==> r == Ok::<Primitive, ValueError>(
        Primitive::Integer(int_value(p) | int_value(q))
    )
    &&& resolved_type(p, q) == ValueType::Decimal || resolved_type(p, q)
        == ValueType::String ==> r == invalid_for(resolved_type(p, q))
}

/// What the bitwise exclusive or of two primitives gives
pub open spec fn prim_bit_xor(p: Primitive, q: Primitive, r: Result<Primitive, ValueError>) -> bool {
    &&& resolved_type(p, q) == ValueType::Boolean ==> r == Ok::<Primitive, ValueError>(
        Primitive::Boolean(truth(p) != truth(q))
    )
    &&& resolved_type(p, q) == ValueType::Integer ==> r == Ok::<Primitive, ValueError>(
        Primitive::Integer(int_value(p) ^ int_value(q))
    )
    &&& resolved_type(p, q) == ValueType::Decimal || resolved_type(p, q)
        == ValueType::String ==> r == invalid_for(resolved_type(p, q))
}

/// What shifting a primitive left gives
pub open spec fn prim_shift_left(p: Primitive, q: Primitive, r: Result<Primitive, ValueError>) -> bool {
    &&& resolved_type(p, q) == ValueType::Integer ==> r == Ok::<Primitive, ValueError>(
        Primitive::Integer(int_value(p) << (int_value(q) as u32))
    )
    &&& resolved_type(p, q) != ValueType::Integer ==> r == invalid_for(resolved_type(p, q))
}

/// What shifting a primitive right gives
pub open spec fn prim_shift_right(p: Primitive, q: Primitive, r: Result<Primitive, ValueError>) -> bool {
    &&& resolved_type(p, q) == ValueType::Integer ==> r == Ok::<Primitive, ValueError>(
        Primitive::Integer(int_value(p) >> (int_value(q) as u32))
    )
    &&& resolved_type(p, q) != ValueType::Integer ==> r == invalid_for(resolved_type(p, q))
}

/// What comparing two primitives for equality gives
pub open spec fn prim_equal_outcome(p: Primitive, q: Primitive, r: Result<Primitive, ValueError>) -> bool {
    &&& r == Ok::<Primitive, ValueError>(Primitive::Boolean(compares_equal(p, q)))
}

/// What comparing two primitives for inequality gives
pub open spec fn prim_unequal_outcome(p: Primitive, q: Primitive, r: Result<Primitive, ValueError>) -> bool {
    &&& r == Ok::<Primitive, ValueError>(Primitive::Boolean(!compares_equal(p, q)))
}

/// What comparing two primitives with `>=` gives
pub open spec fn prim_ge_outcome(p: Primitive, q: Primitive, r: Result<Primitive, ValueError>) -> bool {
    &&& r == Ok::<Primitive, ValueError>(Primitive::Boolean(!compares_less(p, q)))
}

/// What comparing two primitives with `>` gives
pub open spec fn prim_gt_outcome(p: Primitive, q: Primitive, r: Result<Primitive, ValueError>) -> bool {
    &&& r == Ok::<Primitive, ValueError>(Primitive::Boolean(compares_less(q, p)))
}

/// What comparing two primitives with `<=` gives
pub open spec fn prim_le_outcome(p: Primitive, q: Primitive, r: Result<Primitive, ValueError>) -> bool {
    &&& r == Ok::<Primitive, ValueError>(Primitive::Boolean(!compares_less(q, p)))
}

/// What comparing two primitives with `<` gives
pub open spec fn prim_lt_outcome(p: Primitive, q: Primitive, r: Result<Primitive, ValueError>) -> bool {
    &&& r == Ok::<Primitive, ValueError>(Primitive::Boolean(compares_less(p, q)))
}

/// What the logical and of two primitives gives
pub open spec fn prim_logical_and(p: Primitive, q: Primitive, r: Result<Primitive, ValueError>) -> bool {
    &&& r == Ok::<Primitive, ValueError>(Primitive::Boolean(truth(p) && truth(q)))
}

/// What the logical or of two primitives gives
pub open spec fn prim_logical_or(p: Primitive, q: Primitive, r: Result<Primitive, ValueError>) -> bool {
    &&& r == Ok::<Primitive, ValueError>(Primitive::Boolean(truth(p) || truth(q)))
}

/// What negating a primitive gives: a boolean's not, a number's negative, a
/// string reversed
pub open spec fn prim_negation(p: Primitive, r: Result<Primitive, ValueError>) -> bool {
    &&& p matches Primitive::Boolean(b) ==> r == Ok::<Primitive, ValueError>(Primitive::Boolean(!b))
    &&& p matches Primitive::Integer(i) ==> r == Ok::<Primitive, ValueError>(
        Primitive::Integer((-i) as i128),
    )
    &&& p matches Primitive::Decimal(d) ==> (number_outcome(r) matches Some(x) && number_negation(d, x))
    &&& p matches Primitive::String(s) ==> (r matches Ok(Primitive::String(t)) && t@ == s@.reverse())
}

/// Negating twice gives back a boolean, an integer other than the least,
/// or a string
pub proof fn lemma_negation_involution(p: Primitive, q: Primitive, r: Primitive)
    requires
        !(p is Decimal),
        !(p matches Primitive::Integer(i) && i == i128::MIN),
        prim_negation(p, Ok(q)),
        prim_negation(q, Ok(r)),
    ensures
        prim_eq(p, r),
{
    if let (Primitive::String(s), Primitive::String(t), Primitive::String(u)) = (p, q, r) {
        assert(u@ =~= s@);
    }
}

/// What the bitwise not of a primitive gives
pub open spec fn prim_bit_not(p: Primitive, r: Result<Primitive, ValueError>) -> bool {
    &&& p matches Primitive::Boolean(b) ==> r == Ok::<Primitive, ValueError>(Primitive::Boolean(!b))
    &&& p matches Primitive::Integer(i) ==> r == Ok::<Primitive, ValueError>(Primitive::Integer(!i))
    &&& p is Decimal || p is String ==> r == invalid_for(prim_type(p))
}

/// The text of `s` reversed
fn reversed(s: &String) -> (r: String)
    ensures
        r@ == s@.reverse(),
{
    let chars = chars_of(s.as_str());
    let mut out: Vec<char> = Vec::new();
    let mut i: usize = chars.len();
    while i > 0
        invariant
            i <= chars@.len(),
            chars@ == s@,
            out@ == chars@.subrange(i as int, chars@.len() as int).reverse(),
        decreases i,
    {
        i = i - 1;
        out.push(chars[i]);
        assert(out@ =~= chars@.subrange(i as int, chars@.len() as int).reverse());
    }
    assert(chars@.subrange(0, chars@.len() as int) =~= chars@);
    string_from_chars(out.as_slice())
}

impl Primitive {
    /// Adds two primitives brought to their common type: booleans by
    /// exclusive or, integers and decimals by addition, strings by joining
    pub fn checked_add(self, other: Self) -> (r: Result<Self, ValueError>)
        ensures
            prim_sum(self, other, r),
    {
        primitive_wf(&self);
        primitive_wf(&other);
        let (a, b) = self.resolve(other).unwrap();
        match (a, b) {
            (Primitive::Boolean(x), Primitive::Boolean(y)) => Ok(Primitive::Boolean(x != y)),
            (Primitive::Integer(x), Primitive::Integer(y)) => match x.checked_add(y) {
                Some(v) => Ok(Primitive::Integer(v)),
                None => Err(ValueError::ArithmeticOverflow),
            },
            (Primitive::Decimal(x), Primitive::Decimal(y)) => match x.checked_add(y) {
                Ok(n) => Ok(Primitive::Decimal(n)),
                Err(e) => Err(e),
            },
            (Primitive::String(x), Primitive::String(y)) => {
                let mut t = x;
                t.append(y.as_str());
                Ok(Primitive::String(t))
            },
            (a, _) => Err(ValueError::InvalidOperationForType(a.type_of())),
        }
    }

    /// Subtracts two primitives brought to their common type: booleans by
    /// exclusive or, integers and decimals by subtraction, strings by taking
    /// every occurrence of the second out of the first
    pub fn checked_sub(self, other: Self) -> (r: Result<Self, ValueError>)
        ensures
            prim_difference(self, other, r),
    {
        primitive_wf(&self);
        primitive_wf(&other);
        let (a, b) = self.resolve(other).unwrap();
        match (a, b) {
            (Primitive::Boolean(x), Primitive::Boolean(y)) => Ok(Primitive::Boolean(x != y)),
            (Primitive::Integer(x), Primitive::Integer(y)) => match x.checked_sub(y) {
                Some(v) => Ok(Primitive::Integer(v)),
                None => Err(ValueError::ArithmeticOverflow),
            },
            (Primitive::Decimal(x), Primitive::Decimal(y)) => match x.checked_sub(y) {
                Ok(n) => Ok(Primitive::Decimal(n)),
                Err(e) => Err(e),
            },
            (Primitive::String(x), Primitive::String(y)) => {
                let kept = text_remove_all(&chars_of(x.as_str()), &chars_of(y.as_str()));
                Ok(Primitive::String(string_from_chars(kept.as_slice())))
            },
            (a, _) => Err(ValueError::InvalidOperationForType(a.type_of())),
        }
    }

    /// Multiplies two primitives brought to their common type: booleans by
    /// and, integers and decimals by multiplication; strings have no product
    pub fn checked_mul(self, other: Self) -> (r: Result<Self, ValueError>)
        ensures
            prim_product(self, other, r),
    {
        primitive_wf(&self);
        primitive_wf(&other);
        let (a, b) = self.resolve(other).unwrap();
        match (a, b) {
            (Primitive::Boolean(x), Primitive::Boolean(y)) => Ok(Primitive::Boolean(x && y)),
            (Primitive::Integer(x), Primitive::Integer(y)) => match x.checked_mul(y) {
                Some(v) => Ok(Primitive::Integer(v)),
                None => Err(ValueError::ArithmeticOverflow),
            },
            (Primitive::Decimal(x), Primitive::Decimal(y)) => match x.checked_mul(y) {
                Ok(n) => Ok(Primitive::Decimal(n)),
                Err(e) => Err(e),
            },
            (a, _) => Err(ValueError::InvalidOperationForType(a.type_of())),
        }
    }

    /// Divides two primitives brought to their common type: booleans by
    /// and, integers by division rounded toward zero, decimals by fpdec's
    /// division; strings have no quotient
    pub fn checked_div(self, other: Self) -> (r: Result<Self, ValueError>)
        ensures
            prim_quotient(self, other, r),
    {
        primitive_wf(&self);
        primitive_wf(&other);
        let (a, b) = self.resolve(other).unwrap();
        match (a, b) {
            (Primitive::Boolean(x), Primitive::Boolean(y)) => Ok(Primitive::Boolean(x && y)),
            (Primitive::Integer(x), Primitive::Integer(y)) => match x.checked_div(y) {
                Some(v) => Ok(Primitive::Integer(v)),
                None => Err(ValueError::ArithmeticOverflow),
            },
            (Primitive::Decimal(x), Primitive::Decimal(y)) => match x.checked_div(y) {
                Ok(n) => Ok(Primitive::Decimal(n)),
                Err(e) => Err(e),
            },
            (a, _) => Err(ValueError::InvalidOperationForType(a.type_of())),
        }
    }

    /// The remainder of two primitives brought to their common type: booleans
    /// by and, integers by the remainder of division rounded toward zero,
    /// decimals by fpdec's remainder; strings have none
    pub fn checked_rem(self, other: Self) -> (r: Result<Self, ValueError>)
        ensures
            prim_remainder(self, other, r),
    {
        primitive_wf(&self);
        primitive_wf(&other);
        let (a, b) = self.resolve(other).unwrap();
        match (a, b) {
            (Primitive::Boolean(x), Primitive::Boolean(y)) => Ok(Primitive::Boolean(x && y)),
            (Primitive::Integer(x), Primitive::Integer(y)) => match x.checked_rem(y) {
                Some(v) => Ok(Primitive::Integer(v)),
                None => Err(ValueError::ArithmeticOverflow),
            },
            (Primitive::Decimal(x), Primitive::Decimal(y)) => match x.checked_rem(y) {
                Ok(n) => Ok(Primitive::Decimal(n)),
                Err(e) => Err(e),
            },
            (a, _) => Err(ValueError::InvalidOperationForType(a.type_of())),
        }
    }

    /// Negates a primitive: a boolean by not, a number by its negative, a
    /// string by reversing it
    pub fn checked_neg(self) -> (r: Result<Self, ValueError>)
        requires
            !(self matches Primitive::Integer(i) && i == i128::MIN),
        ensures
            prim_negation(self, r),
    {
        primitive_wf(&self);
        match self {
            Primitive::Boolean(b) => Ok(Primitive::Boolean(!b)),
            Primitive::Integer(i) => Ok(Primitive::Integer(-i)),
            Primitive::Decimal(d) => match d.checked_neg() {
                Ok(n) => Ok(Primitive::Decimal(n)),
                Err(e) => Err(e),
            },
            Primitive::String(s) => Ok(Primitive::String(reversed(&s))),
        }
    }

    /// Bitwise and of two primitives brought to their common type: booleans
    /// by and, integers bit by bit; the other types have none
    pub fn checked_and(self, other: Self) -> (r: Result<Self, ValueError>)
        ensures
            prim_bit_and(self, other, r),
    {
        primitive_wf(&self);
        primitive_wf(&other);
        let (a, b) = self.resolve(other).unwrap();
        match (a, b) {
            (Primitive::Boolean(x), Primitive::Boolean(y)) => Ok(Primitive::Boolean(x && y)),
            (Primitive::Integer(x), Primitive::Integer(y)) => Ok(Primitive::Integer(x & y)),
            (a, _) => Err(ValueError::InvalidOperationForType(a.type_of())),
        }
    }

    /// Bitwise or of two primitives brought to their common type: booleans
    /// by or, integers bit by bit; the other types have none
    pub fn checked_or(self, other: Self) -> (r: Result<Self, ValueError>)
        ensures
            prim_bit_or(self, other, r),
    {
        primitive_wf(&self);
        primitive_wf(&other);
        let (a, b) = self.resolve(other).unwrap();
        match (a, b) {
            (Primitive::Boolean(x), Primitive::Boolean(y)) => Ok(Primitive::Boolean(x || y)),
            (Primitive::Integer(x), Primitive::Integer(y)) => Ok(Primitive::Integer(x | y)),
            (a, _) => Err(ValueError::InvalidOperationForType(a.type_of())),
        }
    }

    /// Bitwise exclusive or of two primitives brought to their common type:
    /// booleans by inequality, integers bit by bit; the other types have none
    pub fn checked_xor(self, other: Self) -> (r: Result<Self, ValueError>)
        ensures
            prim_bit_xor(self, other, r),
    {
        primitive_wf(&self);
        primitive_wf(&other);
        let (a, b) = self.resolve(other).unwrap();
        match (a, b) {
            (Primitive::Boolean(x), Primitive::Boolean(y)) => Ok(Primitive::Boolean(x != y)),
            (Primitive::Integer(x), Primitive::Integer(y)) => Ok(Primitive::Integer(x ^ y)),
            (a, _) => Err(ValueError::InvalidOperationForType(a.type_of())),
        }
    }

    /// Shifts an integer left by another, both brought to their common type;
    /// the other types have no shift
    pub fn checked_shl(self, other: Self) -> (r: Result<Self, ValueError>)
        requires
            resolved_type(self, other) == ValueType::Integer ==> 0 <= int_value(other) < 128,
        ensures
            prim_shift_left(self, other, r),
    {
        primitive_wf(&self);
        primitive_wf(&other);
        let (a, b) = self.resolve(other).unwrap();
        match (a, b) {
            (Primitive::Integer(x), Primitive::Integer(y)) => Ok(Primitive::Integer(x << (y as u32))),
            (a, _) => Err(ValueError::InvalidOperationForType(a.type_of())),
        }
    }

    /// Shifts an integer right by another, keeping its sign, both brought to
    /// their common type; the other types have no shift
    pub fn checked_shr(self, other: Self) -> (r: Result<Self, ValueError>)
        requires
            resolved_type(self, other) == ValueType::Integer ==> 0 <= int_value(other) < 128,
        ensures
            prim_shift_right(self, other, r),
    {
        primitive_wf(&self);
        primitive_wf(&other);
        let (a, b) = self.resolve(other).unwrap();
        match (a, b) {
            (Primitive::Integer(x), Primitive::Integer(y)) => Ok(Primitive::Integer(x >> (y as u32))),
            (a, _) => Err(ValueError::InvalidOperationForType(a.type_of())),
        }
    }

    /// Bitwise not: a boolean by not, an integer bit by bit; the other types
    /// have none
    pub fn checked_not(self) -> (r: Result<Self, ValueError>)
        ensures
            prim_bit_not(self, r),
    {
        match self {
            Primitive::Boolean(b) => Ok(Primitive::Boolean(!b)),
            Primitive::Integer(i) => Ok(Primitive::Integer(!i)),
            _ => Err(ValueError::InvalidOperationForType(self.type_of())),
        }
    }

    /// Logical and of the truths of two primitives
    pub fn checked_logical_and(self, other: Self) -> (r: Result<Self, ValueError>)
        ensures
            prim_logical_and(self, other, r),
    {
        let a = self.into_boolean();
        let b = other.into_boolean();
        Ok(Primitive::Boolean(a && b))
    }

    /// Logical or of the truths of two primitives
    pub fn checked_logical_or(self, other: Self) -> (r: Result<Self, ValueError>)
        ensures
            prim_logical_or(self, other, r),
    {
        let a = self.into_boolean();
        let b = other.into_boolean();
        Ok(Primitive::Boolean(a || b))
    }

    /// Logical not of the truth of a primitive
    pub fn checked_logical_not(self) -> (r: Result<Self, ValueError>)
        ensures
            r == Ok::<Primitive, ValueError>(Primitive::Boolean(!truth(self))),
    {
        let a = self.into_boolean();
        Ok(Primitive::Boolean(!a))
    }

    /// Whether `self` comes before `other` once both are brought to their
    /// common type
    fn resolved_less(self, other: Self) -> (r: bool)
        ensures
            r == compares_less(self, other),
    {
        primitive_wf(&self);
        primitive_wf(&other);
        let (a, b) = self.resolve(other).unwrap();
        match (a, b) {
            (Primitive::Boolean(x), Primitive::Boolean(y)) => !x && y,
            (Primitive::Integer(x), Primitive::Integer(y)) => x < y,
            (Primitive::Decimal(x), Primitive::Decimal(y)) => x.precedes(&y),
            (Primitive::String(x), Primitive::String(y)) => text_less(&chars_of(x.as_str()), &chars_of(y.as_str())),
            _ => false,
        }
    }

    /// Whether `self` equals `other` once both are brought to their common
    /// type
    fn resolved_equal(self, other: Self) -> (r: bool)
        ensures
            r == compares_equal(self, other),
    {
        primitive_wf(&self);
        primitive_wf(&other);
        let (a, b) = self.resolve(other).unwrap();
        match (a, b) {
            (Primitive::Boolean(x), Primitive::Boolean(y)) => x == y,
            (Primitive::Integer(x), Primitive::Integer(y)) => x == y,
            (Primitive::Decimal(x), Primitive::Decimal(y)) => x.equals(&y),
            (Primitive::String(x), Primitive::String(y)) => str_eq(x.as_str(), y.as_str()),
            _ => false,
        }
    }

    /// Whether the primitives are equal once brought to their common type
    pub fn checked_eq(self, other: Self) -> (r: Result<Self, ValueError>)
        ensures
            prim_equal_outcome(self, other, r),
    {
        primitive_wf(&self);
        primitive_wf(&other);
        Ok(Primitive::Boolean(self.resolved_equal(other)))
    }

    /// Whether the primitives differ once brought to their common type
    pub fn checked_ne(self, other: Self) -> (r: Result<Self, ValueError>)
        ensures
            prim_unequal_outcome(self, other, r),
    {
        primitive_wf(&self);
        primitive_wf(&other);
        Ok(Primitive::Boolean(!self.resolved_equal(other)))
    }

    /// Whether `self` is at least `other` once both are brought to their
    /// common type
    pub fn checked_ge(self, other: Self) -> (r: Result<Self, ValueError>)
        ensures
            prim_ge_outcome(self, other, r),
    {
        primitive_wf(&self);
        primitive_wf(&other);
        Ok(Primitive::Boolean(!self.resolved_less(other)))
    }

    /// Whether `self` is above `other` once both are brought to their common
    /// type
    pub fn checked_gt(self, other: Self) -> (r: Result<Self, ValueError>)
        ensures
            prim_gt_outcome(self, other, r),
    {
        primitive_wf(&self);
        primitive_wf(&other);
        Ok(Primitive::Boolean(other.resolved_less(self)))
    }

    /// Whether `self` is at most `other` once both are brought to their
    /// common type
    pub fn checked_le(self, other: Self) -> (r: Result<Self, ValueError>)
        ensures
            prim_le_outcome(self, other, r),
    {
        primitive_wf(&self);
        primitive_wf(&other);
        Ok(Primitive::Boolean(!other.resolved_less(self)))
    }

    /// Whether `self` is below `other` once both are brought to their common
    /// type
    pub fn checked_lt(self, other: Self) -> (r: Result<Self, ValueError>)
        ensures
            prim_lt_outcome(self, other, r),
    {
        primitive_wf(&self);
        primitive_wf(&other);
        Ok(Primitive::Boolean(self.resolved_less(other)))
    }

    /// Whether the primitives are strictly equal: of one type, with equal
    /// contents
    pub fn checked_seq(self, other: Self) -> (r: Result<Self, ValueError>)
        ensures
            r == Ok::<Primitive, ValueError>(Primitive::Boolean(prim_eq(self, other))),
    {
        primitive_wf(&self);
        primitive_wf(&other);
        Ok(Primitive::Boolean(self.strictly_equals(&other)))
    }

    /// Whether the primitives differ in type or contents
    pub fn checked_sne(self, other: Self) -> (r: Result<Self, ValueError>)
        ensures
            r == Ok::<Primitive, ValueError>(Primitive::Boolean(!prim_eq(self, other))),
    {
        primitive_wf(&self);
        primitive_wf(&other);
        Ok(Primitive::Boolean(!self.strictly_equals(&other)))
    }

    /// Whether the primitives are of one type, with equal contents
    pub fn strictly_equals(&self, other: &Self) -> (r: bool)
        ensures
            r == prim_eq(*self, *other),
    {
        primitive_wf(self);
        primitive_wf(other);
        match (self, other) {
            (Primitive::Boolean(x), Primitive::Boolean(y)) => *x == *y,
            (Primitive::Integer(x), Primitive::Integer(y)) => *x == *y,
            (Primitive::Decimal(x), Primitive::Decimal(y)) => x.equals(y),
            (Primitive::String(x), Primitive::String(y)) => str_eq(x.as_str(), y.as_str()),
            _ => false,
        }
    }
}

/// `x` to the power `e`
pub open spec fn power(x: int, e: nat) -> int
    decreases e,
{
    if e == 0 {
        1
    } else {
        x * power(x, (e - 1) as nat)
    }
}

/// What an integer power gives: none for an exponent outside `u32`, or a
/// power outside `i128`
pub open spec fn checked_power(x: i128, y: i128) -> Option<i128> {
    if y < 0 || y > u32::MAX {
        None
    } else if i128::MIN <= power(x as int, y as nat) <= i128::MAX {
        Some(power(x as int, y as nat) as i128)
    } else {
        None
    }
}

proof fn lemma_power_of_one(e: nat)
    ensures
        power(1, e) == 1,
    decreases e,
{
    if e > 0 {
        lemma_power_of_one((e - 1) as nat);
    }
}

proof fn lemma_power_of_minus_one(e: nat)
    ensures
        power(-1, e) == if e % 2 == 0 { 1int } else { -1int },
    decreases e,
{
    if e > 0 {
        lemma_power_of_minus_one((e - 1) as nat);
    }
}

/// The magnitude of an integer
pub open spec fn magnitude(v: int) -> int {
    if v < 0 {
        -v
    } else {
        v
    }
}

proof fn lemma_magnitude_of_product(x: int, p: int)
    ensures
        magnitude(x * p) == magnitude(x) * magnitude(p),
{
    if x >= 0 && p >= 0 {
        assert(x * p >= 0) by (nonlinear_arith)
            requires x >= 0, p >= 0;
    } else if x < 0 && p >= 0 {
        assert(x * p <= 0 && -(x * p) == (-x) * p) by (nonlinear_arith)
            requires x < 0, p >= 0;
    } else if x >= 0 && p < 0 {
        assert(x * p <= 0 && -(x * p) == x * (-p)) by (nonlinear_arith)
            requires x >= 0, p < 0;
    } else {
        assert(x * p > 0 && x * p == (-x) * (-p)) by (nonlinear_arith)
            requires x < 0, p < 0;
    }
}

proof fn lemma_power_grows(x: int, k: nat, m: nat)
    requires
        magnitude(x) >= 2,
        k < m,
    ensures
        magnitude(power(x, m)) >= 2 * magnitude(power(x, k)),
    decreases m - k,
{
    let p = power(x, (m - 1) as nat);
    assert(power(x, m) == x * p);
    lemma_magnitude_of_product(x, p);
    let (ax, ap) = (magnitude(x), magnitude(p));
    assert(ax * ap >= 2 * ap) by (nonlinear_arith)
        requires ax >= 2, ap >= 0;
    if k + 1 < m {
        lemma_power_grows(x, k, (m - 1) as nat);
    }
}

/// `x` to the power `y`, when the exponent fits in `u32` and the power in
/// `i128`
pub fn integer_power(x: i128, y: i128) -> (r: Option<i128>)
    ensures
        r == checked_power(x, y),
{
    if y < 0 || y > u32::MAX as i128 {
        return None;
    }
    let e: u32 = y as u32;
    if e == 0 {
        return Some(1);
    }
    if x == 0 {
        return Some(0);
    }
    if x == 1 {
        proof {
            lemma_power_of_one(e as nat);
        }
        return Some(1);
    }
    if x == -1 {
        proof {
            lemma_power_of_minus_one(e as nat);
        }
        return Some(if e % 2 == 0 { 1 } else { -1 });
    }
    let mut acc: i128 = 1;
    let mut k: u32 = 0;
    while k < e
        invariant
            k <= e,
            e == y,
            magnitude(x as int) >= 2,
            acc == power(x as int, k as nat),
        decreases e - k,
    {
        match acc.checked_mul(x) {
            Some(v) => {
                acc = v;
                k = k + 1;
            },
            None => {
                proof {
                    let n = (k + 1) as nat;
                    assert(power(x as int, n) == x * acc);
                    if n < e {
                        lemma_power_grows(x as int, n, e as nat);
                    }
                    assert(!(i128::MIN <= power(x as int, e as nat) <= i128::MAX));
                }
                return None;
            },
        }
    }
    Some(acc)
}

/// What raising a primitive to a power comes to: a result, or, for decimals,
/// the two numbers whose power is taken in floating point by the caller
#[derive(Debug)]
pub enum PowerOutcome {
    /// The power, or the error
    Done(Result<Primitive, ValueError>),
    /// The base and the exponent as numbers
    Decimals(Number, Number),
}

impl Primitive {
    /// Raises `self` to the power `other`, both brought to their common
    /// type: booleans by and, integers by integer power with an exponent
    /// that fits in `u32`; strings have no power; decimals are handed back
    pub fn checked_pow(self, other: Self) -> (r: PowerOutcome)
        ensures
            resolved_type(self, other) == ValueType::Boolean ==> r == PowerOutcome::Done(
                Ok(Primitive::Boolean(truth(self) && truth(other))),
            ),
            resolved_type(self, other) == ValueType::Integer ==> r == PowerOutcome::Done(
                int_outcome(checked_power(int_value(self), int_value(other))),
            ),
            resolved_type(self, other) == ValueType::Decimal ==> r == PowerOutcome::Decimals(
                as_number(self),
                as_number(other),
            ),
            resolved_type(self, other) == ValueType::String ==> r == PowerOutcome::Done(
                invalid_for(ValueType::String),
            ),
    {
        primitive_wf(&self);
        primitive_wf(&other);
        let (a, b) = self.resolve(other).unwrap();
        match (a, b) {
            (Primitive::Boolean(x), Primitive::Boolean(y)) => PowerOutcome::Done(Ok(Primitive::Boolean(x && y))),
            (Primitive::Integer(x), Primitive::Integer(y)) => PowerOutcome::Done(
                match integer_power(x, y) {
                    Some(v) => Ok(Primitive::Integer(v)),
                    None => Err(ValueError::ArithmeticOverflow),
                },
            ),
            (Primitive::Decimal(x), Primitive::Decimal(y)) => PowerOutcome::Decimals(x, y),
            (a, _) => PowerOutcome::Done(Err(ValueError::InvalidOperationForType(a.type_of()))),
        }
    }
}

impl Primitive {
    /// The text of the primitive, leaving it in place
    pub fn clone_text(&self) -> (s: String)
        ensures
            s@ == prim_text(*self),
    {
        primitive_wf(self);
        match self {
            Primitive::Boolean(b) => String::from_str(if *b { "true" } else { "false" }),
            Primitive::Integer(i) => i128_string(*i),
            Primitive::Decimal(d) => d.to_string(),
            Primitive::String(s) => s.clone(),
        }
    }
}

/// The bytes of a primitive's contents
pub open spec fn payload_encoding(p: Primitive) -> Seq<u8> {
    match p {
        Primitive::Boolean(b) => (if b { 1u8 } else { 0u8 }).encoding(),
        Primitive::Integer(i) => i.encoding(),
        Primitive::Decimal(d) => d.encoding(),
        Primitive::String(s) => s.encoding(),
    }
}

/// The contents of a primitive fit their encoding
pub open spec fn payload_encodable(p: Primitive) -> bool {
    match p {
        Primitive::Decimal(d) => d.encodable(),
        Primitive::String(s) => s.encodable(),
        _ => true,
    }
}

impl SerializeToBytes for Primitive {
    /// The byte of the primitive's type, then its contents
    open spec fn encoding(&self) -> Seq<u8> {
        type_code(prim_type(*self)).encoding() + payload_encoding(*self)
    }

    open spec fn encodable(&self) -> bool {
        payload_encodable(*self)
    }

    proof fn lemma_prefix_free(a: Self, b: Self, r1: Seq<u8>, r2: Seq<u8>) {
        let (ta, tb) = (type_code(prim_type(a)), type_code(prim_type(b)));
        assert(a.encoding() + r1 =~= ta.encoding() + (payload_encoding(a) + r1));
        assert(b.encoding() + r2 =~= tb.encoding() + (payload_encoding(b) + r2));
        u8::lemma_prefix_free(ta, tb, payload_encoding(a) + r1, payload_encoding(b) + r2);
        crate::traits::lemma_pow256_values();
        crate::traits::lemma_fixed_prefix(ta as nat, tb as nat, 1, payload_encoding(a) + r1, payload_encoding(b) + r2);
        match (a, b) {
            (Primitive::Boolean(x), Primitive::Boolean(y)) => {
                u8::lemma_prefix_free(if x { 1u8 } else { 0u8 }, if y { 1u8 } else { 0u8 }, r1, r2);
            },
            (Primitive::Integer(x), Primitive::Integer(y)) => {
                i128::lemma_prefix_free(x, y, r1, r2);
            },
            (Primitive::Decimal(x), Primitive::Decimal(y)) => {
                Number::lemma_prefix_free(x, y, r1, r2);
            },
            (Primitive::String(x), Primitive::String(y)) => {
                String::lemma_prefix_free(x, y, r1, r2);
            },
            _ => {},
        }
    }

    fn serialize_into_bytes(self) -> (bytes: Vec<u8>) {
        let t = self.type_of();
        let mut bytes = t.code().serialize_into_bytes();
        let payload = match self {
            Primitive::Boolean(b) => (if b { 1u8 } else { 0u8 }).serialize_into_bytes(),
            Primitive::Integer(i) => i.serialize_into_bytes(),
            Primitive::Decimal(d) => d.serialize_into_bytes(),
            Primitive::String(s) => s.serialize_into_bytes(),
        };
        bytes.extend_from_slice(payload.as_slice());
        bytes
    }

    /// A type byte of no primitive type, or a boolean byte other than 0 or
    /// 1, is malformed data
    fn deserialize_from_bytes(bytes: &mut ByteReader) -> (r: Result<Self, ByteDecodeError>) {
        let ghost start = bytes.rest();
        proof {
            assert forall|v: Primitive, tail: Seq<u8>| v.encodable() && start == #[trigger] (
            v.encoding() + tail) implies start == type_code(prim_type(v)).encoding() + (
            payload_encoding(v) + tail) by {}
        }
        let code = u8::deserialize_from_bytes(bytes)?;
        let ghost mid = bytes.rest();
        proof {
            assert forall|v: Primitive, tail: Seq<u8>| v.encodable() && start == #[trigger] (
            v.encoding() + tail) implies code == type_code(prim_type(v)) && mid == payload_encoding(v) + tail by {}
        }
        let r = match ValueType::from_u8(code) {
            Some(ValueType::Boolean) => {
                let b = u8::deserialize_from_bytes(bytes)?;
                if b == 0 {
                    Ok(Primitive::Boolean(false))
                } else if b == 1 {
                    Ok(Primitive::Boolean(true))
                } else {
                    Err(ByteDecodeError::MalformedData(String::from_str("Invalid boolean")))
                }
            },
            Some(ValueType::Integer) => match i128::deserialize_from_bytes(bytes) {
                Ok(i) => Ok(Primitive::Integer(i)),
                Err(e) => Err(e),
            },
            Some(ValueType::Decimal) => match Number::deserialize_from_bytes(bytes) {
                Ok(d) => Ok(Primitive::Decimal(d)),
                Err(e) => Err(e),
            },
            Some(ValueType::String) => match String::deserialize_from_bytes(bytes) {
                Ok(s) => Ok(Primitive::String(s)),
                Err(e) => Err(e),
            },
            _ => Err(ByteDecodeError::MalformedData(String::from_str("Invalid value type"))),
        };
        proof {
            if r is Ok {
                assert(start =~= r->Ok_0.encoding() + bytes.rest());
            }
        }
        r
    }
}

} // verus!
